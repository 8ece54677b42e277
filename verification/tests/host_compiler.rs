use sao2::host_compiler::{
    append_labelled, append_output, compiler_arguments, compiler_candidates, compiler_flavor, executable_names, judge,
    missing_compiler, missing_configured, object_name, replacement_failure, start_failure, Flavor,
};

#[test]
fn chooses_compiler_flavor_from_executable_name() {
    assert_eq!(compiler_flavor("cl.exe"), Flavor::Msvc);
    assert_eq!(compiler_flavor("clang.exe"), Flavor::GnuLike);
    assert_eq!(compiler_flavor("gcc"), Flavor::GnuLike);
}

#[test]
fn creates_gnu_arguments_without_shell_quoting() {
    let arguments = compiler_arguments(
        Flavor::GnuLike,
        "build/a file.c",
        "build/a file.exe",
        "build/a file.obj",
    );
    assert_eq!(arguments[4], String::from("build/a file.c"));
    assert_eq!(arguments[5], String::from("-o"));
    assert_eq!(arguments[6], String::from("build/a file.exe"));
}

#[test]
fn creates_msvc_arguments() {
    let arguments = compiler_arguments(
        Flavor::Msvc,
        "build/program.c",
        "build/program.exe",
        &format!("build/{}", object_name("program.c")),
    );
    assert!(arguments.contains(&String::from("/TC")));
    assert!(arguments.contains(&String::from("/Fe:build/program.exe")));
    assert!(arguments.contains(&String::from("/Fo:build/program.obj")));
}

#[test]
fn names_the_object_file_after_the_stem() {
    assert_eq!(object_name("program.c"), "program.obj");
    assert_eq!(object_name("a.b.c"), "a.b.obj");
    assert_eq!(object_name("program"), "program.obj");
    assert_eq!(object_name("program."), "program.obj");
    assert_eq!(object_name(".c"), ".c.obj");
}

#[test]
fn recognizes_a_compiler_by_the_stem_of_its_name() {
    assert_eq!(compiler_flavor("CL.EXE"), Flavor::Msvc);
    assert_eq!(compiler_flavor("clang-cl"), Flavor::GnuLike);
}

#[test]
fn looks_for_the_usual_compilers_of_the_host() {
    assert_eq!(compiler_candidates(true), vec!["cl", "clang", "gcc", "cc"]);
    assert_eq!(compiler_candidates(false), vec!["cc", "clang", "gcc"]);
}

#[test]
fn adds_each_extension_in_small_letters() {
    assert_eq!(executable_names("gcc", true, ".EXE;.CMD"), vec!["gcc"]);
    assert_eq!(executable_names("gcc", false, ".EXE;.CMD;"), vec!["gcc.exe", "gcc.cmd", "gcc"]);
    assert_eq!(executable_names("gcc", false, ""), vec!["gcc"]);
}

#[test]
fn replaces_malformed_output_and_drops_the_white_space_at_its_end() {
    let mut message = String::from("failed");
    append_output(&mut message, "stdout", b"");
    assert_eq!(message, "failed");
    append_output(&mut message, "stderr", b"bad \xFF byte \r\n\t");
    assert_eq!(message, "failed\nstderr:\nbad \u{FFFD} byte");
    append_labelled(&mut message, "note", " kept \n");
    assert_eq!(message, "failed\nstderr:\nbad \u{FFFD} byte\nnote:\n kept");
}

#[test]
fn judges_a_finished_compiler() {
    assert!(judge("cc", "a.out", true, "exit status: 0", b"", b"", true).is_ok());
    let missing = judge("cc", "a.out", true, "exit status: 0", b"", b"", false).unwrap_err();
    assert!(missing.to_string().contains("C compiler 'cc' succeeded but did not create 'a.out'"));
    assert_eq!(missing.exit_code(), 1);
    let failed = judge("cc", "a.out", false, "exit status: 2", b"out\n", b"\xC3\xA9rr\n", true).unwrap_err();
    let text = failed.to_string();
    assert!(text.contains("C compiler 'cc' failed with status exit status: 2\nstdout:\nout\nstderr:\n\u{e9}rr"));
}

#[test]
fn words_what_keeps_a_compiler_from_running() {
    for (error, expected) in [
        (missing_configured("tcc"), "configured C compiler 'tcc' was not found"),
        (missing_compiler(), "no supported C compiler found; install cl, clang, gcc, or cc, or set SAO2_CC"),
        (start_failure("cc", "denied"), "failed to start C compiler 'cc': denied"),
        (replacement_failure("program", "busy"), "cannot replace executable 'program': busy"),
    ] {
        assert!(error.to_string().contains(expected), "{}", error.to_string());
        assert_eq!(error.exit_code(), 1);
    }
}
