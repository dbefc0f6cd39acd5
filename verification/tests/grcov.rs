use covdir::grcov::{contains, split_whitespace};
use covdir::{grcov_arguments, grcov_verdict, GrcovConfig, GrcovFailure};

fn config() -> GrcovConfig {
    GrcovConfig {
        skip_grcov: false,
        coverage_path: "target/cov".to_string(),
        source_dir: ".".to_string(),
        binary_path: "target/debug".to_string(),
        keep_only: String::new(),
        excl_start: String::new(),
        branch: false,
        grcov_args: String::new(),
    }
}

#[test]
fn plain_arguments() {
    assert_eq!(
        grcov_arguments(&config(), None, "covdir.json"),
        vec![
            "target/cov",
            "-s",
            ".",
            "--binary-path",
            "target/debug",
            "-t",
            "covdir",
            "--llvm",
            "--ignore-not-existing",
            "-o",
            "covdir.json",
        ]
    );
}

#[test]
fn every_option_has_its_place() {
    let mut config = config();
    config.keep_only = "src/*".to_string();
    config.excl_start = "mod tests".to_string();
    config.branch = true;
    config.grcov_args = "  --threads 2\t--quiet\n".to_string();
    assert_eq!(
        grcov_arguments(&config, Some("/usr/lib/llvm/bin"), "out/covdir.json"),
        vec![
            "target/cov",
            "-s",
            ".",
            "--binary-path",
            "target/debug",
            "-t",
            "covdir",
            "--llvm",
            "--llvm-path",
            "/usr/lib/llvm/bin",
            "--ignore-not-existing",
            "--keep-only",
            "src/*",
            "--excl-start",
            "mod tests",
            "--branch",
            "--threads",
            "2",
            "--quiet",
            "-o",
            "out/covdir.json",
        ]
    );
}

#[test]
fn empty_settings_are_still_arguments() {
    let config = GrcovConfig::default();
    assert_eq!(
        grcov_arguments(&config, None, ""),
        vec!["", "-s", "", "--binary-path", "", "-t", "covdir", "--llvm", "--ignore-not-existing", "-o", ""]
    );
}

#[test]
fn words_are_what_std_splits() {
    let samples = [
        "",
        " ",
        "a",
        " a",
        "a ",
        "a b",
        "  a  b\t\tc\n",
        "--flag=1 --other",
        "\u{a0}x\u{2003}y\u{3000}",
        "caf\u{e9} \u{1f600}",
        "a\u{200b}b",
    ];
    for sample in samples {
        let expected: Vec<&str> = sample.split_whitespace().collect();
        assert_eq!(split_whitespace(sample), expected);
    }
    assert_eq!(split_whitespace("  a  b\t\tc\n"), vec!["a", "b", "c"]);
    assert_eq!(split_whitespace(" \t\n").len(), 0);
}

#[test]
fn contains_finds_a_pattern_anywhere() {
    assert!(contains("[ERROR]", "[ERROR]"));
    assert!(contains("12:00 [ERROR] no data", "[ERROR]"));
    assert!(contains("tail [ERROR]", "[ERROR]"));
    assert!(contains("[ERROR[ERROR]", "[ERROR]"));
    assert!(contains("anything", ""));
    assert!(contains("", ""));
    assert!(!contains("", "[ERROR]"));
    assert!(!contains("[ERROR", "[ERROR]"));
    assert!(!contains("[error]", "[ERROR]"));
    assert!(!contains("[WARN] ERROR", "[ERROR]"));
    assert!(contains("\u{e9}\u{e9}[ERROR]\u{e9}", "[ERROR]"));
    for (text, pattern) in [("abcabd", "abd"), ("aaa", "aaaa"), ("xyz", "y"), ("xyz", "zx")] {
        assert_eq!(contains(text, pattern), text.contains(pattern));
    }
}

#[test]
fn a_bad_status_fails_the_run() {
    assert_eq!(grcov_verdict(false, ""), Some(GrcovFailure::Status));
    assert_eq!(grcov_verdict(false, "[ERROR] x"), Some(GrcovFailure::Status));
}

#[test]
fn a_reported_error_fails_the_run() {
    assert_eq!(grcov_verdict(true, "12:00:01 [ERROR] no coverage data\n"), Some(GrcovFailure::Reported));
}

#[test]
fn a_quiet_success_passes() {
    assert_eq!(grcov_verdict(true, ""), None);
    assert_eq!(grcov_verdict(true, "[WARN] slow\n[INFO] done\n"), None);
}
