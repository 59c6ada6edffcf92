use std::io::Read;

use ctf_arena::build_context::{pack_dockerfile, prepare_docker_image, render_dockerfile};

fn unpack(context: &[u8]) -> (String, u32, String) {
    let gz = flate2::read::GzDecoder::new(context);
    let mut archive = tar::Archive::new(gz);
    let mut entries = archive.entries().unwrap();
    let mut entry = entries.next().unwrap().unwrap();
    let path = entry.path().unwrap().to_string_lossy().to_string();
    let mode = entry.header().mode().unwrap();
    let mut body = String::new();
    entry.read_to_string(&mut body).unwrap();
    drop(entry);
    assert!(entries.next().is_none());
    (path, mode, body)
}

#[test]
fn flag_replaces_every_placeholder() {
    assert_eq!(
        render_dockerfile("FROM x\nENV F=<FLAG>\nRUN echo <FLAG>", "f1"),
        "FROM x\nENV F=f1\nRUN echo f1"
    );
    assert_eq!(render_dockerfile("FROM x", "f1"), "FROM x");
}

#[test]
fn packed_context_holds_the_dockerfile() {
    let context = pack_dockerfile("FROM alpine\n").unwrap();
    assert_eq!(&context[..2], &[0x1f, 0x8b]);
    let (path, mode, body) = unpack(&context);
    assert_eq!(path, "Dockerfile");
    assert_eq!(mode, 0o755);
    assert_eq!(body, "FROM alpine\n");
    // The same Dockerfile packs to the same bytes.
    assert_eq!(pack_dockerfile("FROM alpine\n").unwrap(), context);
}

#[test]
fn image_context_carries_a_fresh_uuid_flag() {
    let context = prepare_docker_image("FLAG=<FLAG>").unwrap();
    let (_, _, body) = unpack(&context);
    let flag = body.strip_prefix("FLAG=").unwrap();
    assert_eq!(flag.len(), 36);
    for (i, c) in flag.chars().enumerate() {
        if i == 8 || i == 13 || i == 18 || i == 23 {
            assert_eq!(c, '-');
        } else {
            assert!(c.is_ascii_hexdigit() && !c.is_ascii_uppercase());
        }
    }
    let other = prepare_docker_image("FLAG=<FLAG>").unwrap();
    assert_ne!(unpack(&other).2, body);
}

#[test]
fn archive_header_records_name_mode_and_size() {
    let context = pack_dockerfile("FROM alpine\n").unwrap();
    let mut tar_bytes = Vec::new();
    flate2::read::GzDecoder::new(&context[..]).read_to_end(&mut tar_bytes).unwrap();
    assert_eq!(tar_bytes.len(), 512 + 512 + 1024);
    assert_eq!(&tar_bytes[..10], b"Dockerfile");
    assert!(tar_bytes[10..100].iter().all(|b| *b == 0));
    assert_eq!(&tar_bytes[100..108], b"0000755\0");
    assert_eq!(&tar_bytes[124..136], b"00000000014\0");
    assert_eq!(&tar_bytes[512..524], b"FROM alpine\n");
    assert!(tar_bytes[524..].iter().all(|b| *b == 0));
}

#[test]
fn each_placeholder_grows_the_dockerfile_by_thirty() {
    let template = "A<FLAG>B<FLAG>";
    let context = prepare_docker_image(template).unwrap();
    let (_, _, body) = unpack(&context);
    assert_eq!(body.len(), template.len() + 2 * 30);
    assert!(!body.contains("<FLAG>"));
    let plain = prepare_docker_image("FROM alpine\n").unwrap();
    assert_eq!(unpack(&plain).2, "FROM alpine\n");
}
