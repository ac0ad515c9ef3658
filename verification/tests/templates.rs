use parallel::digits::to_decimal;
use parallel::disk_buffer::DiskBuffer;
use parallel::filepaths::new_job;
use parallel::tokens::{Token, build_command, tokenize};

fn s(v: &str) -> String {
    v.to_string()
}

#[test]
fn tokenize_literal_and_placeholder() {
    assert_eq!(tokenize("echo {}"), vec![Token::Literal(s("echo ")), Token::Placeholder]);
}

#[test]
fn tokenize_all_placeholders() {
    assert_eq!(
        tokenize("{} {.} {/} {//} {/.} {#}"),
        vec![
            Token::Placeholder,
            Token::Literal(s(" ")),
            Token::RemoveExtension,
            Token::Literal(s(" ")),
            Token::Basename,
            Token::Literal(s(" ")),
            Token::Dirname,
            Token::Literal(s(" ")),
            Token::BaseAndExt,
            Token::Literal(s(" ")),
            Token::Job,
        ]
    );
}

#[test]
fn tokenize_without_placeholders() {
    assert_eq!(tokenize("ls -l"), vec![Token::Literal(s("ls -l"))]);
    assert_eq!(tokenize(""), Vec::<Token>::new());
}

#[test]
fn unknown_braces_stay_literal() {
    assert_eq!(tokenize("{x}"), vec![Token::Literal(s("{x}"))]);
}

#[test]
fn build_identity_command() {
    let t = tokenize("echo {}");
    assert_eq!(build_command(&t, "a", 0), "echo a");
}

#[test]
fn build_with_path_components() {
    let t = tokenize("cp {} {/}");
    assert_eq!(build_command(&t, "dir/file.txt", 3), "cp dir/file.txt file.txt");

    let t = tokenize("echo {//} {.} {/.} {#}");
    assert_eq!(build_command(&t, "a/b/c.tar", 7), "echo a/b a/b/c c 7");
}

#[test]
fn build_component_edge_cases() {
    let t = tokenize("echo {//}");
    assert_eq!(build_command(&t, "plain", 0), "echo .");

    let t = tokenize("echo {.}");
    assert_eq!(build_command(&t, "noext", 0), "echo noext");
    assert_eq!(build_command(&t, "a.d/noext", 0), "echo a.d/noext");
}

#[test]
fn decimal_rendering() {
    assert_eq!(to_decimal(0), "0");
    assert_eq!(to_decimal(9), "9");
    assert_eq!(to_decimal(10), "10");
    assert_eq!(to_decimal(409), "409");
}

#[test]
fn job_paths_are_distinct() {
    let (out0, err0) = new_job("/tmp/run/", 0);
    let (out1, err1) = new_job("/tmp/run/", 1);
    assert_eq!(out0, "/tmp/run/stdout/0");
    assert_eq!(err0, "/tmp/run/stderr/0");
    assert_eq!(out1, "/tmp/run/stdout/1");
    assert_eq!(err1, "/tmp/run/stderr/1");
    assert_ne!(out0, out1);
    assert_ne!(err0, err1);
    assert_ne!(out0, err0);
    // the same id gives byte-identical paths wherever they are computed
    assert_eq!(new_job("/tmp/run/", 1), (out1, err1));
}

#[test]
fn disk_buffer_holds_and_flushes_in_order() {
    let mut b = DiskBuffer::new(8);
    assert_eq!(b.write(b"abc"), None);
    assert_eq!(b.write(b"de"), None);
    // overflowing hands back everything pending plus the new bytes, in order
    assert_eq!(b.write(b"fghi"), Some(b"abcdefghi".to_vec()));
    assert_eq!(b.write(b"x"), None);
    assert_eq!(b.flush(), b"x".to_vec());
    assert_eq!(b.flush(), Vec::<u8>::new());
}
