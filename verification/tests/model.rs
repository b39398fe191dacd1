use gpu_host::model::archive::{header_offsets_fit, Entry, Tensor};
use gpu_host::model::error::ModelError;
use gpu_host::model::listing::{list_tensors, multiply_out, sort_listing};
use gpu_host::model::weights::{
    assemble, copy_bytes_to_f32_vec, decode_any_shape, decode_tensor, load_all_tensors,
    load_gpt2_weights, name_of, shape_of,
};

/// An archive with a header and data.
fn archive(header: &str, data: &[u8]) -> Vec<u8> {
    let mut out = (header.len() as u64).to_le_bytes().to_vec();
    out.extend_from_slice(header.as_bytes());
    out.extend_from_slice(data);
    out
}

fn two_tensors() -> Vec<u8> {
    let mut data = Vec::new();
    for x in [1.0f32, -2.5] {
        data.extend_from_slice(&x.to_le_bytes());
    }
    data.extend_from_slice(&[1, 2, 3]);
    archive(
        concat_text(&[
            r#"{"zeta":{"dtype":"F32","shape":[2,1],"data_offsets":[0,8]},"#,
            r#""alpha":{"dtype":"U8","shape":[3],"data_offsets":[8,11]}}"#,
        ])
        .as_str(),
        &data,
    )
}

fn concat_text(parts: &[&str]) -> String {
    parts.concat()
}

#[test]
fn listings_are_sorted_by_name() {
    let list = list_tensors(&two_tensors()).unwrap();
    assert_eq!(list.len(), 2);
    assert_eq!(list[0].name, "alpha");
    assert_eq!((list[0].dtype.as_str(), list[0].num_elements, list[0].size_bytes), ("U8", 3, 3));
    assert_eq!(list[1].name, "zeta");
    assert_eq!(list[1].shape, vec![2, 1]);
    assert_eq!((list[1].dtype.as_str(), list[1].num_elements, list[1].size_bytes), ("F32", 2, 8));
}

#[test]
fn entries_are_sorted() {
    let entry = |name: &str, shape: Vec<usize>| Entry {
        name: name.into(),
        dtype: "F16".into(),
        shape,
        size: 12,
    };
    let list = sort_listing(vec![
        entry("b", vec![2, 3]),
        entry("ab", vec![]),
        entry("B", vec![0, 5]),
        entry("a", vec![7]),
    ]);
    let names: Vec<&str> = list.iter().map(|i| i.name.as_str()).collect();
    assert_eq!(names, vec!["B", "a", "ab", "b"]);
    assert_eq!(list.iter().map(|i| i.num_elements).collect::<Vec<_>>(), vec![0, 7, 1, 6]);
    assert_eq!(multiply_out(&vec![4, 5, 6]), 120);
}

#[test]
fn broken_archives_are_refused() {
    for data in [&b""[..], b"short", &archive("{", b"")[..], &archive("{}", b"x")[..]] {
        assert!(header_offsets_fit(data));
        match list_tensors(data) {
            Err(e @ ModelError::SafeTensors(_)) => {
                assert!(e.message().starts_with("safetensors parse error: "))
            }
            other => panic!("{other:?}"),
        }
        assert!(matches!(load_gpt2_weights(data), Err(ModelError::SafeTensors(_))));
        assert!(matches!(load_all_tensors(data), Err(ModelError::SafeTensors(_))));
    }
}

#[test]
fn long_numbers_are_noticed() {
    let end = |offset: &str| {
        let header = r#"{"x":{"dtype":"U8","shape":[1],"data_offsets":[0, END ]}}"#;
        archive(&header.replace("END", offset), b"")
    };
    let front = 8 + (r#"{"x":{"dtype":"U8","shape":[1],"data_offsets":[0,  ]}}"#.len() + 20) as u64;
    assert!(!header_offsets_fit(&end("18446744073709551615")));
    assert!(!header_offsets_fit(&end(&(u64::MAX - front + 1).to_string())));
    assert!(header_offsets_fit(&end(&(u64::MAX - front).to_string())));
    assert!(header_offsets_fit(&end("18446744073709551616")));
    assert!(header_offsets_fit(&end("12345678901234567890")));
    // Elsewhere in a header the same digits do no harm.
    assert!(header_offsets_fit(&archive(r#"{"[0,18446744073709551615]":{}}"#, b"")));
    assert!(header_offsets_fit(&archive(r#"{"\"[0,18446744073709551615]":{}}"#, b"")));
    assert!(header_offsets_fit(&archive(r#"{"x":{"shape":[0,18446744073709551615]}}"#, b"")));
    assert!(header_offsets_fit(&archive("{}", b"[0,18446744073709551615]")));
    // A key that is written with escapes may be any key.
    let escaped = r#"{"x":{"data\u005foffsets":[0,18446744073709551615]}}"#;
    assert!(!header_offsets_fit(&archive(escaped, b"")));
}

#[test]
fn names_may_hold_any_digits() {
    let header = r#"{"t[0,18446744073709551615]":{"dtype":"U8","shape":[0,18446744073709551615],
        "data_offsets":[0,0]},"__metadata__":{"18446744073709551615":"99999999999999999999]"}}"#;
    let data = archive(header, b"");
    assert!(header_offsets_fit(&data));
    let list = list_tensors(&data).unwrap();
    assert_eq!(list.len(), 1);
    assert_eq!(list[0].name, "t[0,18446744073709551615]");
    assert_eq!((list[0].num_elements, list[0].size_bytes), (0, 0));
}

#[test]
fn all_tensors_must_be_f32() {
    match load_all_tensors(&two_tensors()) {
        Err(ModelError::UnexpectedDtype { name, expected, got }) => {
            assert_eq!((name.as_str(), expected, got.as_str()), ("alpha", "F32", "U8"))
        }
        _ => panic!("expected a wrong element type"),
    }
    let header = r#"{"w":{"dtype":"F32","shape":[2],"data_offsets":[0,8]}}"#;
    let data = [1.0f32.to_le_bytes(), 3.0f32.to_le_bytes()].concat();
    let all = load_all_tensors(&archive(header, &data)).unwrap();
    assert_eq!(all.len(), 1);
    assert_eq!(all[0].name, "w");
    assert_eq!(all[0].data, (vec![0x3F80_0000, 0x4040_0000], vec![2]));
}

#[test]
fn missing_weights_are_named() {
    match load_gpt2_weights(&two_tensors()) {
        Err(e @ ModelError::MissingTensor(_)) => {
            assert_eq!(e.message(), "missing tensor: wte.weight")
        }
        _ => panic!("expected a missing tensor"),
    }
}

#[test]
fn wrong_weights_are_named() {
    let header = r#"{"wte.weight":{"dtype":"F16","shape":[1,2],"data_offsets":[0,4]}}"#;
    match load_gpt2_weights(&archive(header, &[0; 4])) {
        Err(e) => assert_eq!(e.message(), "tensor wte.weight: expected dtype F32, got F16"),
        Ok(_) => panic!("expected an error"),
    }
    let header = r#"{"wte.weight":{"dtype":"F32","shape":[1,2],"data_offsets":[0,8]}}"#;
    match load_gpt2_weights(&archive(header, &[0; 8])) {
        Err(e) => assert_eq!(
            e.message(),
            "tensor wte.weight: expected shape [50257, 768], got [1, 2]"
        ),
        Ok(_) => panic!("expected an error"),
    }
}

#[test]
fn tensors_are_decoded() {
    let tensor = |dtype: &str| {
        Some(Tensor { dtype: dtype.into(), shape: vec![2], data: vec![1, 0, 0, 0, 0, 1, 0, 0] })
    };
    assert_eq!(copy_bytes_to_f32_vec(&[1, 2, 3, 4]), vec![0x0403_0201]);
    assert_eq!(decode_tensor(tensor("F32"), "x", &[2]).unwrap(), vec![1, 256]);
    assert_eq!(decode_any_shape(tensor("F32"), "x").unwrap(), (vec![1, 256], vec![2]));
    assert!(matches!(decode_tensor(None, "x", &[2]), Err(ModelError::MissingTensor(n)) if n == "x"));
    assert!(matches!(
        decode_tensor(tensor("I32"), "x", &[3]),
        Err(ModelError::UnexpectedDtype { .. })
    ));
    assert!(matches!(
        decode_tensor(tensor("F32"), "x", &[1, 2]),
        Err(ModelError::UnexpectedShape { .. })
    ));
    assert!(matches!(decode_any_shape(None, "x"), Err(ModelError::MissingTensor(_))));
    assert!(matches!(
        decode_any_shape(tensor("BF16"), "x"),
        Err(ModelError::UnexpectedDtype { .. })
    ));
}

#[test]
fn the_tensors_of_the_model() {
    assert_eq!(name_of(0), "wte.weight");
    assert_eq!(name_of(3), "ln_f.bias");
    assert_eq!(name_of(4), "h.0.ln_1.weight");
    assert_eq!(name_of(4 + 12 * 10 + 8), "h.10.mlp.c_fc.weight");
    assert_eq!(name_of(147), "h.11.mlp.c_proj.bias");
    let total: usize = (0..148).map(|g| shape_of(g).iter().product::<usize>()).sum();
    assert_eq!(total, 124_439_808);
}

#[test]
fn weights_are_put_in_their_places() {
    let w = assemble((0..148u32).map(|g| vec![g; g as usize]).collect());
    assert_eq!(w.wpe, vec![1]);
    assert_eq!(w.ln_f.bias, vec![3; 3]);
    assert_eq!(w.layers.len(), 12);
    assert_eq!(w.layers[0].ln_1.weight, vec![4; 4]);
    assert_eq!(w.layers[11].mlp_proj_bias, vec![147; 147]);
    assert_eq!(w.layers[2].c_attn_bias, vec![31; 31]);
    assert_eq!(w.total_params(), 147 * 148 / 2);
    assert_eq!(w.memory_bytes(), 147 * 148 * 2);
}

#[test]
fn reading_errors_are_reported() {
    assert_eq!(
        ModelError::Io("gone".into()).message(),
        "IO error reading safetensors file: gone"
    );
}
