use toda::AbsPath;
use toda::path::PathError;

fn p(s: &str) -> AbsPath {
    AbsPath::from_bytes(&s.as_bytes().to_vec()).unwrap()
}

fn render(path: &AbsPath) -> Vec<u8> {
    path.to_bytes()
}

#[test]
fn parse_and_render_round_trip() {
    let path = p("/tmp/chaos-a");
    assert_eq!(render(&path), b"/tmp/chaos-a".to_vec());
    assert_eq!(path.depth(), 2);
    let root = p("/");
    assert!(root.is_root());
    assert_eq!(render(&root), b"/".to_vec());
}

#[test]
fn parse_rejects_non_canonical() {
    assert!(AbsPath::from_bytes(&b"".to_vec()).is_none());
    assert!(AbsPath::from_bytes(&b"tmp/x".to_vec()).is_none());
    assert!(AbsPath::from_bytes(&b"/a//b".to_vec()).is_none());
    assert!(AbsPath::from_bytes(&b"/a/".to_vec()).is_none());
    assert!(AbsPath::from_bytes(&b"/a\0b".to_vec()).is_none());
    assert!(AbsPath::from_bytes(&b"/a/b".to_vec()).is_some());
}

#[test]
fn encode_path_wraps_final_component() {
    let path = p("/tmp/chaos-a");
    let shadow = path.encode_path().unwrap();
    assert_eq!(render(&shadow), b"/tmp/__chaosfs__chaos-a__".to_vec());
}

#[test]
fn encode_path_rejects_root() {
    let root = p("/");
    assert!(matches!(root.encode_path(), Err(PathError::RootHasNoShadow)));
}

#[test]
fn shadow_uniqueness_examples() {
    let a = p("/tmp/chaos-a").encode_path().unwrap();
    let b = p("/tmp/chaos-b").encode_path().unwrap();
    assert!(!a.path_eq(&b));
    let a2 = p("/tmp/chaos-a").encode_path().unwrap();
    assert!(a.path_eq(&a2));
    // A path that already carries the markers still gets a distinct shadow.
    let tricky = p("/tmp/__chaosfs__chaos-a__").encode_path().unwrap();
    assert!(!a.path_eq(&tricky));
    assert_eq!(
        render(&tricky),
        b"/tmp/__chaosfs____chaosfs__chaos-a____".to_vec()
    );
}

#[test]
fn rewrite_moves_prefix_and_back() {
    let full = p("/tmp/chaos-b/log");
    let detect = p("/tmp/chaos-b");
    let shadow = detect.encode_path().unwrap();
    assert!(full.starts_with(&detect));
    let moved = full.rewrite(&detect, &shadow);
    assert_eq!(render(&moved), b"/tmp/__chaosfs__chaos-b__/log".to_vec());
    assert!(moved.starts_with(&shadow));
    let back = moved.rewrite(&shadow, &detect);
    assert!(back.path_eq(&full));
}

#[test]
fn starts_with_needs_whole_components() {
    let full = p("/tmp/chaos-ab");
    let detect = p("/tmp/chaos-a");
    assert!(!full.starts_with(&detect));
    assert!(full.starts_with(&p("/tmp")));
    assert!(full.starts_with(&p("/")));
    assert!(!p("/tmp").starts_with(&full));
}
