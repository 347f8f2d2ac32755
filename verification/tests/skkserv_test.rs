use nablaskk_core::backend::{Backend, SystemDictionary};
use nablaskk_core::dictionary::common::CommonDictionary;
use nablaskk_core::dictionary::file::Encoding;
use nablaskk_core::dictionary::user::LocalUserDictionary;
use nablaskk_core::jconv::EucTable;
use nablaskk_core::skkserv::{server_reply, SERVER_HOST, SERVER_VERSION};

fn server_backend() -> Backend {
    let mut backend = Backend::new(LocalUserDictionary::new(Encoding::Utf8));
    backend.add_dictionary(SystemDictionary::Common(CommonDictionary::from_text(
        ";; okuri-nasi entries.\nabc /alpha/beta/\nabd /delta/\n",
    )));
    backend
}

#[test]
fn server_disconnects_on_zero() {
    let backend = server_backend();
    let (reply, keep) = server_reply(&backend, &EucTable::empty(), b'0', b"");
    assert!(reply.is_empty());
    assert!(!keep);
}

#[test]
fn server_lookup_found_and_not_found() {
    let backend = server_backend();
    let table = EucTable::empty();
    let (reply, keep) = server_reply(&backend, &table, b'1', b"abc");
    assert_eq!(reply, b"1/alpha/beta/\n".to_vec());
    assert!(keep);
    let (reply, keep) = server_reply(&backend, &table, b'1', b"xyz");
    assert_eq!(reply, b"4xyz\n".to_vec());
    assert!(keep);
}

#[test]
fn server_version_host_and_unknown() {
    let backend = server_backend();
    let table = EucTable::empty();
    assert_eq!(server_reply(&backend, &table, b'2', b"").0, SERVER_VERSION.as_bytes().to_vec());
    assert_eq!(server_reply(&backend, &table, b'3', b"").0, SERVER_HOST.as_bytes().to_vec());
    assert_eq!(server_reply(&backend, &table, b'9', b""), (b"0".to_vec(), true));
}

#[test]
fn server_completion() {
    let mut backend = server_backend();
    backend.enable_extended_completion(true);
    let table = EucTable::empty();
    let (reply, keep) = server_reply(&backend, &table, b'4', b"zz");
    assert_eq!(reply, b"4zz\n".to_vec());
    assert!(keep);
}
