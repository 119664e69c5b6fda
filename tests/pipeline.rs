use ldproxy::dedup::{collapse_if_requested, remove_duplicate_libs};
use ldproxy::flags::{extract_control_flags, ControlFlags};
use ldproxy::ingest::{expand_response_files, expand_with_words, response_file_path};
use ldproxy::invoke::{
    decimal_string, invocation_args, link_result, linker_failure_message, needs_response_file,
    response_file_contents, response_file_name, ProxyError,
};
use ldproxy::linker::{linker_candidates, linker_env_vars, resolve_linker};
use ldproxy::side_channel::{find_companion_dir, merge_side_channel, parse_side_channel, SideChannel};
use ldproxy::lines::split_lines;
use ldproxy::target::infer_target_dir;

fn toks(v: &[&str]) -> Vec<String> {
    v.iter().map(|s| s.to_string()).collect()
}

#[test]
fn dedup_scenario_keeps_last_library() {
    let mut args = toks(&["-o", "out.elf", "-lm", "-lfoo", "-lm"]);
    let mut cwd: Option<String> = None;
    merge_side_channel(&mut args, &mut cwd, None);
    let out = collapse_if_requested(args, true);
    assert_eq!(out, toks(&["-o", "out.elf", "-lfoo", "-lm"]));
    assert_eq!(cwd, None);
}

#[test]
fn dedup_keeps_only_last_position() {
    let input = toks(&["a", "b", "-lfoo", "c", "d", "-lfoo", "e", "f", "g", "-lfoo", "h"]);
    let out = remove_duplicate_libs(input);
    assert_eq!(out, toks(&["a", "b", "c", "d", "e", "f", "g", "-lfoo", "h"]));
}

#[test]
fn dedup_is_idempotent_on_example() {
    let input = toks(&["-lc", "x", "-lm", "-lc", "x", "-lm", "-lgcc"]);
    let once = remove_duplicate_libs(input);
    let twice = remove_duplicate_libs(once.clone());
    assert_eq!(once, toks(&["x", "-lc", "x", "-lm", "-lgcc"]));
    assert_eq!(once, twice);
}

#[test]
fn dedup_exact_match_only() {
    let input = toks(&["-lfoo", "-l", "foo", "-lfoo "]);
    assert_eq!(remove_duplicate_libs(input.clone()), input);
}

#[test]
fn dedup_not_requested_leaves_args() {
    let input = toks(&["-lm", "-lm"]);
    assert_eq!(collapse_if_requested(input.clone(), false), input);
}

#[test]
fn dedup_empty() {
    assert_eq!(remove_duplicate_libs(Vec::new()), Vec::<String>::new());
}

#[test]
fn extract_removes_flag_pairs() {
    let args = toks(&[
        "a", "--ldproxy-linker", "gcc1", "a", "--ldproxy-dedup-libs", "b", "--ldproxy-cwd", "/w1",
        "--ldproxy-linker", "gcc2", "b", "--ldproxy-cwd=/w2",
    ]);
    let (rest, flags) = extract_control_flags(&args);
    assert_eq!(rest, toks(&["a", "a", "b", "b"]));
    let ControlFlags { linker, dedup_libs, cwd } = flags;
    assert_eq!(linker, Some("gcc2".to_string()));
    assert!(dedup_libs);
    assert_eq!(cwd, Some("/w2".to_string()));
}

#[test]
fn extract_without_flags_passes_through() {
    let args = toks(&["-o", "x", "-o", "--ldproxy", "--ldproxy-linkerX", "-lm"]);
    let (rest, flags) = extract_control_flags(&args);
    assert_eq!(rest, args);
    assert_eq!(flags.linker, None);
    assert!(!flags.dedup_libs);
    assert_eq!(flags.cwd, None);
}

#[test]
fn extract_trailing_flag_without_value() {
    let args = toks(&["--ldproxy-linker=ld", "x", "--ldproxy-linker"]);
    let (rest, flags) = extract_control_flags(&args);
    assert_eq!(rest, toks(&["x"]));
    assert_eq!(flags.linker, Some("ld".to_string()));
}

#[test]
fn side_channel_cwd_scenario() {
    let content = "cargo:rustc-link-arg=--ldproxy-cwd\ncargo:rustc-link-arg=/build/dir\n";
    let sc = parse_side_channel(content);
    assert!(sc.link_args.is_empty());
    assert_eq!(sc.cwd, Some("/build/dir".to_string()));
    let mut args = toks(&["-o", "x"]);
    let mut cwd = Some("/old".to_string());
    merge_side_channel(&mut args, &mut cwd, Some(sc));
    assert_eq!(args, toks(&["-o", "x"]));
    assert_eq!(cwd, Some("/build/dir".to_string()));
}

#[test]
fn side_channel_appends_in_file_order() {
    let content = "cargo:rustc-link-arg=-Tlink.x\r\nnoise\ncargo:rustc-link-arg=--ldproxy-dedup-libs\ncargo:rustc-link-arg=--ldproxy-linker\ncargo:rustc-link-arg=gcc\ncargo:rustc-link-arg=-lfoo";
    let sc = parse_side_channel(content);
    assert_eq!(sc.link_args, toks(&["-Tlink.x", "-lfoo"]));
    assert_eq!(sc.cwd, None);
    let mut args = toks(&["a"]);
    let mut cwd = Some("/keep".to_string());
    merge_side_channel(&mut args, &mut cwd, Some(sc));
    assert_eq!(args, toks(&["a", "-Tlink.x", "-lfoo"]));
    assert_eq!(cwd, Some("/keep".to_string()));
}

#[test]
fn side_channel_absent_is_noop() {
    let mut args = toks(&["a", "b"]);
    let mut cwd = None;
    merge_side_channel(&mut args, &mut cwd, None);
    assert_eq!(args, toks(&["a", "b"]));
    assert_eq!(cwd, None);
}

#[test]
fn side_channel_empty_file_is_noop() {
    let sc = parse_side_channel("");
    let mut args = toks(&["a"]);
    let mut cwd = Some("/c".to_string());
    merge_side_channel(&mut args, &mut cwd, Some(sc));
    assert_eq!(args, toks(&["a"]));
    assert_eq!(cwd, Some("/c".to_string()));
}

#[test]
fn companion_dir_first_match() {
    let names = toks(&["esp-idf-sys-aaa", "foo", "esp-idf-sys-bbb", "esp-idf-sys-ccc"]);
    let is_dir = vec![false, true, true, true];
    assert_eq!(find_companion_dir(&names, &is_dir), Some(2));
    assert_eq!(find_companion_dir(&names, &vec![false, false, false, false]), None);
}

#[test]
fn split_lines_like_std() {
    for s in ["", "a", "a\n", "a\n\nb", "a\r\nb\r", "\r\n", "x\ny\n\n"] {
        let expected: Vec<String> = s.lines().map(|l| l.to_string()).collect();
        assert_eq!(split_lines(s), expected, "{s:?}");
    }
}

#[test]
fn target_dir_inferred() {
    let args = toks(&[
        "-o",
        "/p/target/x/debug/deps/a/deps/lib.rlib",
        "/q/target/y/deps/b.rlib",
    ]);
    assert_eq!(infer_target_dir(&args), Some("/p/target/x/debug/deps/a".to_string()));
    assert_eq!(infer_target_dir(&toks(&["/p/deps/x", "/target/"])), None);
}

#[test]
fn response_file_policy() {
    assert!(!needs_response_file(500));
    assert!(needs_response_file(501));
    let small = toks(&["a", "b"]);
    assert_eq!(invocation_args(small.clone(), Some("/tmp/r.rsp".to_string())), small);
    let big: Vec<String> = (0..501).map(|i| format!("arg{i}")).collect();
    assert_eq!(
        invocation_args(big.clone(), Some("/tmp/r.rsp".to_string())),
        toks(&["@/tmp/r.rsp"])
    );
    assert_eq!(invocation_args(big.clone(), None), big);
}

#[test]
fn response_file_text_one_line_per_token() {
    let args = toks(&["-o", "out elf", "-lm"]);
    let text = response_file_contents(&args);
    assert_eq!(text, "-o\nout elf\n-lm");
    assert_eq!(text.lines().collect::<Vec<_>>(), vec!["-o", "out elf", "-lm"]);
    assert_eq!(response_file_contents(&Vec::new()), "");
}

#[test]
fn response_file_name_has_pid() {
    assert_eq!(response_file_name(4242), "ldproxy-4242.rsp");
    assert_eq!(response_file_name(0), "ldproxy-0.rsp");
    assert_eq!(decimal_string(u32::MAX), "4294967295");
}

#[test]
fn linker_failure_reported() {
    let msg = linker_failure_message("gcc", "exit status: 1", "undefined reference");
    assert_eq!(msg, "Linker gcc failed: exit status: 1\nSTDERR OUTPUT:\nundefined reference");
    match link_result("gcc", false, "exit status: 1", "boom", false) {
        Err(ProxyError::LinkerFailed { message }) => {
            assert_eq!(message, "Linker gcc failed: exit status: 1\nSTDERR OUTPUT:\nboom")
        }
        _ => panic!("expected a linker failure"),
    }
    assert!(matches!(link_result("gcc", true, "", "", true), Err(ProxyError::FailureRequested)));
    assert!(matches!(link_result("gcc", true, "", "", false), Ok(())));
}

#[test]
fn no_linker_is_configuration_error() {
    let r = resolve_linker(None, vec![None, None, None, None], vec![false, false, false]);
    assert!(matches!(r, Err(ProxyError::NoLinker)));
}

#[test]
fn linker_fallback_order() {
    let r = resolve_linker(Some("ld1".to_string()), vec![Some("cc".to_string()), None, None, None], vec![true; 3]);
    assert!(matches!(r, Ok(ref s) if s == "ld1"));
    let r = resolve_linker(None, vec![None, Some("c2".to_string()), None, Some("cc".to_string())], vec![true; 3]);
    assert!(matches!(r, Ok(ref s) if s == "c2"));
    let r = resolve_linker(None, vec![None, None, None, None], vec![false, true, true]);
    assert!(matches!(r, Ok(ref s) if s == "riscv32-unknown-elf-gcc"));
    assert_eq!(linker_env_vars().len(), 4);
    assert_eq!(linker_candidates()[0], "riscv32-esp-elf-gcc");
}

#[test]
fn response_file_expansion() {
    let raw = toks(&["a", "@/x.rsp", "@/missing", "@/y.rsp"]);
    let contents = vec![None, Some("-o 'out file' \"-lm\"\n@nested".to_string()), None, Some(String::new())];
    let out = expand_response_files(&raw, &contents);
    assert_eq!(out, toks(&["a", "-o", "out file", "-lm", "@nested", "@/missing"]));
    assert_eq!(response_file_path("@/x.rsp"), Some("/x.rsp".to_string()));
    assert_eq!(response_file_path("x"), None);
}

#[test]
fn expansion_with_given_words() {
    let raw = toks(&["@f", "g"]);
    let words = vec![Some(toks(&["1", "2"])), Some(toks(&["3"]))];
    assert_eq!(expand_with_words(&raw, &words), toks(&["1", "2", "g"]));
}

#[test]
fn side_channel_struct_builds() {
    let sc = SideChannel { link_args: toks(&["-x"]), cwd: None };
    let mut args = Vec::new();
    let mut cwd = None;
    merge_side_channel(&mut args, &mut cwd, Some(sc));
    assert_eq!(args, toks(&["-x"]));
}
