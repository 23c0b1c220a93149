use rocket_static_files::digest::{fingerprint, hash};
use rocket_static_files::failure::IoFailure;
use rocket_static_files::generator::{fails, rerun, DirEntry, EntryKind};
use rocket_static_files::{generate, Error};

fn directory(path: &str, relative: &[&str]) -> Result<DirEntry, String> {
    Ok(DirEntry {
        path: Ok(path.to_string()),
        relative: relative.iter().map(|c| c.to_string()).collect(),
        kind: EntryKind::Other,
    })
}

fn file(path: &str, relative: &[&str], contents: &[u8]) -> Result<DirEntry, String> {
    Ok(DirEntry {
        path: Ok(path.to_string()),
        relative: relative.iter().map(|c| c.to_string()).collect(),
        kind: EntryKind::File { digest: Ok(hash(contents)) },
    })
}

fn tree() -> Vec<Result<DirEntry, String>> {
    vec![
        directory("static", &[]),
        file("static/style.css", &["style.css"], b"body { color: red; }"),
        directory("static/js", &["js"]),
        file("static/js/app.js", &["js", "app.js"], b"console.log(1);"),
        file("static/empty", &["empty"], b""),
    ]
}

#[test]
fn rerun_declares_the_path() {
    assert_eq!(
        rerun(&Ok("static/style.css".to_string())),
        Ok("cargo:rerun-if-changed=static/style.css".to_string())
    );
}

#[test]
fn rerun_refuses_a_path_that_is_not_text() {
    assert_eq!(
        rerun(&Err("static/\u{fffd}.css".to_string())),
        Err(Error::Unprintable { path: "static/\u{fffd}.css".to_string() })
    );
}

#[test]
fn generate_on_an_empty_walk() {
    let generated = generate(&vec![]).unwrap_or_else(|_| panic!("no step can fail"));
    assert_eq!(generated.files.len(), 0);
    assert!(generated.declarations.is_empty());
}

#[test]
fn generate_enters_one_fingerprint_for_each_file() {
    let generated = generate(&tree()).unwrap_or_else(|_| panic!("no step fails"));
    assert_eq!(generated.files.len(), 3);
    assert_eq!(
        generated.files.get("style.css"),
        Some(&fingerprint(hash(b"body { color: red; }")))
    );
    assert_eq!(generated.files.get("js/app.js"), Some(&fingerprint(hash(b"console.log(1);"))));
    assert_eq!(generated.files.get("empty"), Some(&"1wB3c51Lkh4".to_string()));
}

#[test]
fn generate_enters_nothing_for_directories() {
    let generated = generate(&tree()).unwrap_or_else(|_| panic!("no step fails"));
    assert_eq!(generated.files.get(""), None);
    assert_eq!(generated.files.get("js"), None);
    assert_eq!(generated.files.get("static/style.css"), None);
}

#[test]
fn generate_declares_every_path_visited() {
    let generated = generate(&tree()).unwrap_or_else(|_| panic!("no step fails"));
    assert_eq!(
        generated.declarations,
        vec![
            "cargo:rerun-if-changed=static",
            "cargo:rerun-if-changed=static/style.css",
            "cargo:rerun-if-changed=static/js",
            "cargo:rerun-if-changed=static/js/app.js",
            "cargo:rerun-if-changed=static/empty",
        ]
    );
}

#[test]
fn generate_twice_gives_the_same_table() {
    let first = generate(&tree()).unwrap_or_else(|_| panic!("no step fails"));
    let second = generate(&tree()).unwrap_or_else(|_| panic!("no step fails"));
    assert_eq!(first.files.len(), second.files.len());
    for key in ["style.css", "js/app.js", "empty", "js", "missing"] {
        assert_eq!(first.files.get(key), second.files.get(key));
    }
    assert_eq!(first.declarations, second.declarations);
    assert_eq!(first.files.render(), second.files.render());
}

#[test]
fn generate_gives_the_same_table_for_another_order_of_the_walk() {
    let mut reversed = tree();
    reversed.reverse();
    let first = generate(&tree()).unwrap_or_else(|_| panic!("no step fails"));
    let second = generate(&reversed).unwrap_or_else(|_| panic!("no step fails"));
    assert_eq!(first.files.len(), second.files.len());
    for key in ["style.css", "js/app.js", "empty", "js", "missing"] {
        assert_eq!(first.files.get(key), second.files.get(key));
    }
}

#[test]
fn generate_follows_the_contents() {
    let before = generate(&vec![file("static/a", &["a"], b"one")])
        .unwrap_or_else(|_| panic!("no step fails"));
    let after = generate(&vec![file("static/a", &["a"], b"two")])
        .unwrap_or_else(|_| panic!("no step fails"));
    assert_ne!(before.files.get("a"), after.files.get("a"));
}

#[test]
fn generate_lets_a_later_file_replace_an_earlier_one_with_its_key() {
    let walk = vec![file("static/a", &["a"], b"one"), file("static/./a", &["a"], b"two")];
    let generated = generate(&walk).unwrap_or_else(|_| panic!("no step fails"));
    assert_eq!(generated.files.len(), 1);
    assert_eq!(generated.files.get("a"), Some(&fingerprint(hash(b"two"))));
}

#[test]
fn generate_fails_when_the_walk_fails() {
    let mut walk = tree();
    walk.insert(2, Err("permission denied: static/private".to_string()));
    match generate(&walk) {
        Err(error) => assert_eq!(
            error,
            Error::WalkDir { message: "permission denied: static/private".to_string() }
        ),
        Ok(_) => panic!("the walk failed"),
    }
}

#[test]
fn generate_fails_on_a_file_that_cannot_be_read() {
    let mut walk = tree();
    walk.push(Ok(DirEntry {
        path: Ok("static/locked".to_string()),
        relative: vec!["locked".to_string()],
        kind: EntryKind::File { digest: Err(IoFailure::Other) },
    }));
    match generate(&walk) {
        Err(error) => assert_eq!(error, Error::Io { failure: IoFailure::Other }),
        Ok(_) => panic!("a file could not be read"),
    }
}

#[test]
fn generate_fails_on_a_file_that_vanished() {
    let walk = vec![Ok(DirEntry {
        path: Ok("static/gone".to_string()),
        relative: vec!["gone".to_string()],
        kind: EntryKind::File { digest: Err(IoFailure::NotFound) },
    })];
    match generate(&walk) {
        Err(error) => assert_eq!(error, Error::Io { failure: IoFailure::NotFound }),
        Ok(_) => panic!("a file could not be read"),
    }
}

#[test]
fn generate_fails_on_a_path_that_is_not_text() {
    let walk = vec![
        directory("static", &[]),
        Ok(DirEntry {
            path: Err("static/\u{fffd}".to_string()),
            relative: vec!["\u{fffd}".to_string()],
            kind: EntryKind::Other,
        }),
    ];
    match generate(&walk) {
        Err(error) => assert_eq!(error, Error::Unprintable { path: "static/\u{fffd}".to_string() }),
        Ok(_) => panic!("a path is not text"),
    }
}

#[test]
fn generate_reports_the_first_failure() {
    let walk = vec![
        Ok(DirEntry {
            path: Err("static/\u{fffd}".to_string()),
            relative: vec!["\u{fffd}".to_string()],
            kind: EntryKind::File { digest: Err(IoFailure::Other) },
        }),
        Err("later".to_string()),
    ];
    match generate(&walk) {
        Err(error) => assert_eq!(error, Error::Unprintable { path: "static/\u{fffd}".to_string() }),
        Ok(_) => panic!("two steps fail"),
    }
}

#[test]
fn fails_tells_the_steps_that_end_a_run() {
    assert!(!fails(&directory("static", &[])));
    assert!(!fails(&file("static/a", &["a"], b"one")));
    assert!(fails(&Err("permission denied".to_string())));
    assert!(fails(&Ok(DirEntry {
        path: Err("static/\u{fffd}".to_string()),
        relative: vec!["\u{fffd}".to_string()],
        kind: EntryKind::Other,
    })));
    assert!(fails(&Ok(DirEntry {
        path: Ok("static/locked".to_string()),
        relative: vec!["locked".to_string()],
        kind: EntryKind::File { digest: Err(IoFailure::Other) },
    })));
}

#[test]
fn generate_keeps_the_place_of_a_replaced_entry() {
    let walk = vec![
        file("static/a", &["a"], b"one"),
        file("static/b", &["b"], b"two"),
        file("static/a", &["a"], b"three"),
    ];
    let again = vec![file("static/a", &["a"], b"three"), file("static/b", &["b"], b"two")];
    let first = generate(&walk).unwrap_or_else(|_| panic!("no step fails"));
    let second = generate(&again).unwrap_or_else(|_| panic!("no step fails"));
    assert_eq!(first.files.len(), 2);
    assert_eq!(first.files.render(), second.files.render());
}
