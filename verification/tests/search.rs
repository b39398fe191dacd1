use gpu_host::bytes::encode_words;
use gpu_host::scalar::{Constant, Scalar};
use gpu_host::search::files::{
    batch_passed, decode_batch_results, decode_results, encode_query, encode_vectors,
    search_passed, VS_DIM,
};
use gpu_host::search::pipeline::{
    action, allocation, batch_search_pipeline, vector_search_pipeline, Action, BatchSearchFuture,
    Call, Kind, SearchFile, SearchState, VecSearchFuture,
};
use gpu_host::search::topk::{merge_lanes, new_list, offer, TopKEntry};
use gpu_host::warp::poll::{Outcome, WarpPoll};
use std::collections::HashMap;

/// Single-precision numbers.
#[derive(Clone, Copy, Debug, PartialEq)]
struct F32(f32);

impl Scalar for F32 {
    fn constant(c: Constant) -> F32 {
        F32(match c {
            Constant::Zero => 0.0,
            Constant::One => 1.0,
            Constant::Two => 2.0,
            Constant::Half => 0.5,
            Constant::MinusOne => -1.0,
            Constant::GeluScale => 0.797_884_6,
            Constant::GeluCoefficient => 0.044_715,
            Constant::Masked => -1.0e38,
            Constant::NegInfinity => f32::NEG_INFINITY,
        })
    }
    fn from_count(n: usize) -> F32 {
        F32(n as f32)
    }
    fn from_bits(bits: u32) -> F32 {
        F32(f32::from_bits(bits))
    }
    fn to_bits(&self) -> u32 {
        self.0.to_bits()
    }
    fn dup(&self) -> F32 {
        *self
    }
    fn plus(&self, other: &F32) -> F32 {
        F32(self.0 + other.0)
    }
    fn minus(&self, other: &F32) -> F32 {
        F32(self.0 - other.0)
    }
    fn times(&self, other: &F32) -> F32 {
        F32(self.0 * other.0)
    }
    fn over(&self, other: &F32) -> F32 {
        F32(self.0 / other.0)
    }
    fn fused(&self, factor: &F32, addend: &F32) -> F32 {
        F32(self.0.mul_add(factor.0, addend.0))
    }
    fn sqrt(&self) -> F32 {
        F32(self.0.sqrt())
    }
    fn exp(&self) -> F32 {
        F32(self.0.exp())
    }
    fn tanh(&self) -> F32 {
        F32(self.0.tanh())
    }
    fn larger(&self, other: &F32) -> F32 {
        F32(self.0.max(other.0))
    }
    fn exceeds(&self, other: &F32) -> bool {
        self.0 > other.0
    }
}


fn vector(i: usize) -> Vec<u32> {
    (0..VS_DIM)
        .map(|d| ((i as f32 + 1.0) * (d as f32 + 1.0) * 0.1).sin().to_bits())
        .collect()
}

fn database() -> Vec<u8> {
    encode_vectors(&(0..100).map(vector).collect())
}

/// A host that keeps its files in memory.
struct Host {
    files: HashMap<&'static str, Vec<u8>>,
    open: HashMap<u64, &'static str>,
    sideband: Vec<u8>,
    used: u64,
    answer: u64,
}

impl Host {
    fn new() -> Host {
        Host {
            files: HashMap::new(),
            open: HashMap::new(),
            sideband: vec![0; 1 << 21],
            used: 0,
            answer: 0,
        }
    }

    fn call(&mut self, call: Call) {
        self.answer = match call {
            Call::Open { file, .. } => {
                let fd = self.open.len() as u64 + 3;
                self.open.insert(fd, file.name());
                fd
            }
            Call::BulkRead { fd, offset, length } => {
                let data = &self.files[self.open[&fd]];
                let n = data.len().min(length as usize);
                let at = offset as usize;
                self.sideband[at..at + n].copy_from_slice(&data[0..n]);
                n as u64
            }
            Call::BulkWrite { fd, offset, length } => {
                let at = offset as usize;
                let data = self.sideband[at..at + length as usize].to_vec();
                self.files.insert(self.open[&fd], data);
                length
            }
            Call::Close { .. } => 0,
        };
    }

    /// Polls a task until it is ready.
    fn drive(
        &mut self,
        kind: Kind,
        mut state: impl FnMut() -> SearchState,
        mut poll: impl FnMut(Outcome, u64, &mut Vec<u8>) -> WarpPoll,
    ) -> bool {
        loop {
            let at = state();
            let outcome = match action(kind, &at) {
                Action::Submit(call) => {
                    self.call(call);
                    Outcome::Submitted
                }
                Action::Wait => Outcome::Replied(self.answer),
                _ => Outcome::Stalled,
            };
            let mut region = 0;
            if let Some(a) = allocation(kind, &at, outcome) {
                if a.reset {
                    self.used = 0;
                }
                region = self.used;
                self.used += a.bytes;
            }
            if let WarpPoll::Ready(ok) = poll(outcome, region, &mut self.sideband) {
                return ok;
            }
        }
    }
}

#[test]
fn a_vector_is_found() {
    let mut host = Host::new();
    host.files.insert("vecdb.bin", database());
    host.files.insert("query.bin", encode_query(&vector(42)));
    let task = std::cell::RefCell::new(VecSearchFuture::<F32>::new());
    let ok = host.drive(
        Kind::Single,
        || task.borrow().at,
        |outcome, region, data| task.borrow_mut().poll_warp(outcome, region, data),
    );
    assert!(ok);
    let (k, results) = decode_results(&host.files["results.bin"]);
    assert_eq!((k, results.len()), (10, 10));
    let mut status = 0;
    vector_search_pipeline(ok, 1, &mut status);
    assert!(!search_passed(status, &results, 42));
    vector_search_pipeline(ok, 0, &mut status);
    assert!(search_passed(status, &results, 42));
    assert!(!search_passed(status, &results, 41));
    assert!(results.windows(2).all(|w| f32::from_bits(w[0].1) >= f32::from_bits(w[1].1)));
}

#[test]
fn a_batch_is_answered() {
    let wanted = [10usize, 42, 77, 3, 95];
    let mut host = Host::new();
    host.files.insert("vecdb.bin", database());
    host.files.insert("queries.bin", encode_vectors(&wanted.iter().map(|&i| vector(i)).collect()));
    let task = std::cell::RefCell::new(BatchSearchFuture::new());
    let ok = host.drive(
        Kind::Batch,
        || task.borrow().at,
        |outcome, region, data| task.borrow_mut().poll_warp::<F32>(outcome, region, data),
    );
    assert!(ok);
    let (queries, k, lists) = decode_batch_results(&host.files["batch_results.bin"], 5, 3);
    assert_eq!((queries, k), (5, 10));
    let mut status = 0;
    batch_search_pipeline(ok, 0, &mut status);
    assert!(batch_passed(status, queries, 5));
    for (q, list) in lists.iter().enumerate() {
        assert_eq!(list.len(), 3);
        assert_eq!(list[0].0 as usize, wanted[q]);
    }
}

#[test]
fn lists_keep_the_best() {
    let mut list = new_list::<F32>();
    for (id, score) in [(0u32, 0.5f32), (1, 0.9), (2, 0.9), (3, 0.1)] {
        offer(&mut list, TopKEntry { id, score: F32(score) });
    }
    let ids: Vec<u32> = list.iter().take(4).map(|e| e.id).collect();
    assert_eq!(ids, vec![1, 2, 0, 3]);
    let mut lists = Vec::new();
    for lane in 0..32u32 {
        let mut list = new_list::<F32>();
        offer(&mut list, TopKEntry { id: lane, score: F32(lane as f32) });
        lists.push(list);
    }
    let merged = merge_lanes(&lists);
    assert_eq!(merged[0].id, 31);
    assert_eq!(merged[9].id, 22);
}

#[test]
fn every_good_vector_comes_back_once() {
    for good in [0u32, 3, 10, 40] {
        let mut lists = Vec::new();
        for lane in 0..32u32 {
            let mut list = new_list::<F32>();
            // Vectors that score no more than a blank are no matches.
            for id in (lane..100).step_by(32) {
                let score = if id % 100 < good { 1.0 - id as f32 / 64.0 } else { -1.0 };
                offer(&mut list, TopKEntry { id, score: F32(score) });
            }
            lists.push(list);
        }
        let ids: Vec<u32> = merge_lanes(&lists).iter().map(|e| e.id).collect();
        let want: Vec<u32> =
            (0..10).map(|i| if i < good { i } else { u32::MAX }).collect();
        assert_eq!(ids, want);
    }
}

#[test]
fn files_are_laid_out() {
    let two = encode_vectors(&vec![vector(0), vector(1)]);
    assert_eq!(two.len(), 8 + 2 * 512);
    assert_eq!(&two[0..8], &[2, 0, 0, 0, 128, 0, 0, 0]);
    assert_eq!(&two[8..520], &encode_words(&vector(0))[..]);
    assert_eq!(encode_query(&vector(0)).len(), 516);
    let (k, pairs) = decode_results(&encode_words(&vec![10, 7, 8, 9]));
    assert_eq!((k, pairs), (10, vec![(7, 8)]));
    assert_eq!(SearchFile::BatchResults.name(), "batch_results.bin");
}
