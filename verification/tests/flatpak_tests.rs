use protonctx::flatpak::{document_origin, is_doc_path, running_in_flatpak};

#[test]
fn detection_is_stable_across_calls() {
    // The answer depends only on the two signals, so it is identical on
    // every call.
    for info in [false, true] {
        for id in [false, true] {
            let first = running_in_flatpak(info, id);
            let second = running_in_flatpak(info, id);
            assert_eq!(first, second);
        }
    }
}

#[test]
fn detection_returns_a_plain_bool() {
    let _: bool = running_in_flatpak(false, false);
}

#[test]
fn either_signal_means_sandbox() {
    assert!(!running_in_flatpak(false, false));
    assert!(running_in_flatpak(true, false));
    assert!(running_in_flatpak(false, true));
    assert!(running_in_flatpak(true, true));
}

#[test]
fn doc_path_detection() {
    assert!(is_doc_path("/run/user/1000/doc/O9IM4y7CjO949_dSnoxh2g/trainer.exe"));
    assert!(is_doc_path("/run/user/0/doc/abc123/file.txt"));
    // Not named `doc` after the uid, or not under /run/user at all.
    assert!(!is_doc_path("/run/user/1000/foo/trainer.exe"));
    assert!(!is_doc_path("/home/user/trainer.exe"));
    assert!(!is_doc_path("/run/other/1000/doc/x"));
}

#[test]
fn doc_path_edge_cases() {
    assert!(is_doc_path("/run/user/1000/doc"));
    assert!(!is_doc_path("/run/user/1000/docs/x"));
    assert!(!is_doc_path("/run/user/1000"));
    assert!(!is_doc_path("/run/user/"));
    assert!(is_doc_path("/run/user//doc/x"));
}

#[test]
fn resolve_host_path_ignores_non_doc_paths() {
    // Non-doc paths pass through unchanged: they are not document-portal
    // aliases, so no host lookup is made for them.
    assert!(!is_doc_path("/home/user/trainer.exe"));
}

#[test]
fn document_origin_is_parsed_from_document_info() {
    let out = "id: abc\npath: /run/user/1000/doc/abc/x.exe\norigin: /mnt/games/x.exe  \r\napp-permissions:\n";
    assert_eq!(document_origin(out).as_deref(), Some("/mnt/games/x.exe"));
    assert_eq!(document_origin("id: abc\n"), None);
    assert_eq!(document_origin(""), None);
    assert_eq!(document_origin(" origin: /x\norigin: /y").as_deref(), Some("/y"));
}
