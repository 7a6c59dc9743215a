//! The path codec: canonicalization, encoding, decoding, and their laws on
//! concrete paths.

use popusk::storage::path_codec::{
    deserialize_spf, serialize_path, simplify_path_to_local, standart_path_form, PathIDTError,
};

fn comps(path: &popusk::storage::path_codec::NormalizedPath) -> Vec<Vec<u8>> {
    path.components.clone()
}

#[test]
fn canonicalize_plain_path() {
    let p = simplify_path_to_local(&b"notes/a.txt".to_vec()).unwrap();
    assert_eq!(comps(&p), vec![b"notes".to_vec(), b"a.txt".to_vec()]);
}

#[test]
fn canonicalize_resolves_dot_and_dotdot() {
    let p = simplify_path_to_local(&b"./dir/../dir2/file".to_vec()).unwrap();
    assert_eq!(comps(&p), vec![b"dir2".to_vec(), b"file".to_vec()]);
    let q = simplify_path_to_local(&b"a/./b/../c/".to_vec()).unwrap();
    assert_eq!(comps(&q), vec![b"a".to_vec(), b"c".to_vec()]);
}

#[test]
fn canonicalize_rejects_absolute() {
    match simplify_path_to_local(&b"/etc/passwd".to_vec()) {
        Err(PathIDTError::UsingAbsolutePath(orig)) => assert_eq!(orig, b"/etc/passwd".to_vec()),
        other => panic!("expected an absolute-path rejection, got {:?}", other),
    }
}

#[test]
fn canonicalize_rejects_escape() {
    assert!(matches!(
        simplify_path_to_local(&b"../x".to_vec()),
        Err(PathIDTError::UsingUnlocalPath(_))
    ));
    assert!(matches!(
        simplify_path_to_local(&b"a/../../x".to_vec()),
        Err(PathIDTError::UsingUnlocalPath(_))
    ));
}

#[test]
fn canonicalize_rejects_separator_byte() {
    assert!(matches!(
        simplify_path_to_local(&b"a\nb/c".to_vec()),
        Err(PathIDTError::SeparatorInName(_))
    ));
    // a component holding the separator that `..` removes again is harmless
    let p = simplify_path_to_local(&b"a\nb/../c".to_vec()).unwrap();
    assert_eq!(comps(&p), vec![b"c".to_vec()]);
}

#[test]
fn encode_joins_with_separator_byte() {
    let p = simplify_path_to_local(&b"dir2/file".to_vec()).unwrap();
    assert_eq!(serialize_path(&p), b"dir2\nfile".to_vec());
}

#[test]
fn decode_undoes_encode() {
    let p = simplify_path_to_local(&b"notes/sub/a.txt".to_vec()).unwrap();
    let key = serialize_path(&p);
    let back = deserialize_spf(&key);
    assert_eq!(comps(&back), comps(&p));
}

#[test]
fn decode_single_component() {
    let back = deserialize_spf(&b"file.pdf".to_vec());
    assert_eq!(comps(&back), vec![b"file.pdf".to_vec()]);
}

#[test]
fn lexically_equivalent_paths_share_a_key() {
    let k1 = standart_path_form(&b"a/./b".to_vec()).unwrap();
    let k2 = standart_path_form(&b"a/b".to_vec()).unwrap();
    assert_eq!(k1, k2);
    let k3 = standart_path_form(&b"x/../a/b".to_vec()).unwrap();
    assert_eq!(k1, k3);
    let k4 = standart_path_form(&b"a//b/".to_vec()).unwrap();
    assert_eq!(k1, k4);
}

#[test]
fn different_paths_get_different_keys() {
    let k1 = standart_path_form(&b"a/b".to_vec()).unwrap();
    let k2 = standart_path_form(&b"ab".to_vec()).unwrap();
    let k3 = standart_path_form(&b"b/a".to_vec()).unwrap();
    assert_ne!(k1, k2);
    assert_ne!(k1, k3);
    assert_ne!(k2, k3);
}
