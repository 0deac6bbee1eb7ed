use opp::runtime::{
    is_absent_socket_error, join_path, stale_socket, verify_directory, verify_lock, verify_peer,
    EffectiveUser, Failure, FileFacts, RuntimePaths,
};

const NOTHING: FileFacts = FileFacts {
    is_directory: false,
    is_file: false,
    is_socket: false,
    is_symlink: false,
    uid: 501,
};

#[test]
fn stale_socket_removal_rejects_symlinks_and_regular_files() {
    let symlink = FileFacts {
        is_symlink: true,
        ..NOTHING
    };
    assert!(stale_socket(Some(symlink), 501).is_err());
    let file = FileFacts {
        is_file: true,
        ..NOTHING
    };
    assert_eq!(
        stale_socket(Some(file), 501),
        Err("unsafe stale broker socket")
    );
    let socket = FileFacts {
        is_socket: true,
        ..NOTHING
    };
    assert_eq!(stale_socket(Some(socket), 501), Ok(true));
    assert!(stale_socket(Some(socket), 502).is_err());
    assert_eq!(stale_socket(None, 501), Ok(false));
}

#[test]
fn runtime_directory_must_not_be_a_symlink() {
    let directory = FileFacts {
        is_directory: true,
        ..NOTHING
    };
    assert_eq!(verify_directory(&directory, 501), Ok(()));
    assert_eq!(
        verify_directory(
            &FileFacts {
                is_symlink: true,
                ..directory
            },
            501
        ),
        Err("unsafe broker runtime directory")
    );
    assert!(verify_directory(&directory, 502).is_err());
    assert!(verify_directory(&NOTHING, 501).is_err());
}

#[test]
fn locks_and_peers_belong_to_the_user() {
    let file = FileFacts {
        is_file: true,
        ..NOTHING
    };
    assert_eq!(verify_lock(&file, 501), Ok(()));
    assert_eq!(verify_lock(&file, 0), Err("unsafe broker lock"));
    assert_eq!(verify_lock(&NOTHING, 501), Err("unsafe broker lock"));
    assert_eq!(verify_peer(501, 501), Ok(()));
    assert_eq!(verify_peer(0, 501), Err("broker peer user mismatch"));
}

#[test]
fn runtime_files_stand_in_the_caches() {
    let user = EffectiveUser {
        uid: 501,
        name: String::from("alice"),
        home: b"/Users/alice".to_vec(),
    };
    let paths = RuntimePaths::for_user(&user);
    assert_eq!(
        paths.directory,
        b"/Users/alice/Library/Caches/opp/run".to_vec()
    );
    assert_eq!(
        paths.lock,
        b"/Users/alice/Library/Caches/opp/run/broker.lock".to_vec()
    );
    assert_eq!(
        paths.socket,
        b"/Users/alice/Library/Caches/opp/run/broker.sock".to_vec()
    );
    let paths = RuntimePaths::from_directory(b"/tmp/".to_vec());
    assert_eq!(paths.socket, b"/tmp/broker.sock".to_vec());
    assert_eq!(join_path(b"", b"a"), b"a".to_vec());
    assert_eq!(join_path(b"/tmp", b"/a/b"), b"/a/b".to_vec());
    assert_eq!(join_path(b"/tmp", b""), b"/tmp/".to_vec());
    assert_eq!(join_path(b"", b""), Vec::<u8>::new());
}

#[test]
fn a_missing_or_refusing_socket_means_no_broker() {
    assert!(is_absent_socket_error(Failure::NotFound));
    assert!(is_absent_socket_error(Failure::ConnectionRefused));
    for failure in [Failure::WouldBlock, Failure::Unsupported, Failure::Other] {
        assert!(!is_absent_socket_error(failure));
    }
}
