//! What can go wrong on the host.

use vstd::prelude::*;

use crate::hostcall::buffer::HostcallError;

verus! {

/// A failed operation. Errors of the driver are given by their words.
#[derive(Debug)]
pub enum GpuHostError {
    /// The device could not be set up.
    CudaInit(String),
    /// Memory could not be allocated.
    CudaAlloc(String),
    /// Memory could not be mapped.
    CudaGetDevPtr(String),
    /// Memory could not be freed.
    CudaFreeMem(String),
    /// Another operation of the driver failed.
    Cudarc(String),
    /// There is no kernel of that name.
    KernelNotFound(&'static str),
    /// A result is not as expected.
    Verification { test: &'static str, detail: String },
    /// A result did not come in time.
    Timeout { test: &'static str, detail: String },
    /// The hostcall buffer could not be set up.
    Hostcall(HostcallError),
}

/// A test's name and what it reports.
pub open spec fn test_text(test: Seq<char>, what: Seq<char>, detail: Seq<char>) -> Seq<char> {
    test + what + detail
}

fn test_message(test: &str, what: &str, detail: &str) -> (r: String)
    ensures
        r@ == test_text(test@, what@, detail@),
{
    let mut r = test.to_string();
    r.append(what);
    r.append(detail);
    r
}

impl GpuHostError {
    /// What the error says.
    pub open spec fn text(&self) -> Seq<char> {
        match self {
            GpuHostError::CudaInit(e) => "CUDA device init failed: "@ + e@,
            GpuHostError::CudaAlloc(r) => "cuMemHostAlloc failed: "@ + r@,
            GpuHostError::CudaGetDevPtr(r) => "cuMemHostGetDevicePointer_v2 failed: "@ + r@,
            GpuHostError::CudaFreeMem(r) => "cuMemFreeHost failed: "@ + r@,
            GpuHostError::Cudarc(e) => "cudarc error: "@ + e@,
            GpuHostError::KernelNotFound(name) => "kernel function not found: "@ + name@,
            GpuHostError::Verification { test, detail } => test_text(
                test@,
                ": verification failed: "@,
                detail@,
            ),
            GpuHostError::Timeout { test, detail } => test_text(test@, ": timeout: "@, detail@),
            GpuHostError::Hostcall(e) => "hostcall error: "@ + e.text(),
        }
    }

    /// What the error says.
    pub fn message(&self) -> (r: String)
        ensures
            r@ == self.text(),
    {
        match self {
            GpuHostError::CudaInit(e) => "CUDA device init failed: ".to_string().concat(
                e.as_str(),
            ),
            GpuHostError::CudaAlloc(r) => "cuMemHostAlloc failed: ".to_string().concat(
                r.as_str(),
            ),
            GpuHostError::CudaGetDevPtr(r) => "cuMemHostGetDevicePointer_v2 failed: ".to_string().concat(
                r.as_str(),
            ),
            GpuHostError::CudaFreeMem(r) => "cuMemFreeHost failed: ".to_string().concat(
                r.as_str(),
            ),
            GpuHostError::Cudarc(e) => "cudarc error: ".to_string().concat(e.as_str()),
            GpuHostError::KernelNotFound(name) => "kernel function not found: ".to_string().concat(
                name,
            ),
            GpuHostError::Verification { test, detail } => test_message(
                test,
                ": verification failed: ",
                detail.as_str(),
            ),
            GpuHostError::Timeout { test, detail } => test_message(
                test,
                ": timeout: ",
                detail.as_str(),
            ),
            GpuHostError::Hostcall(e) => {
                let inner = e.message();
                "hostcall error: ".to_string().concat(inner.as_str())
            },
        }
    }
}

/// What comes of an operation on the host.
pub type Result<T> = core::result::Result<T, GpuHostError>;

} // verus!
