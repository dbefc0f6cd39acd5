//! The collation tool grcov, which writes the covdir document: the arguments
//! that it is run with, and what its outcome means.

use vstd::prelude::*;
use vstd::string::StringExecFns;

verus! {

/// Whether a character has the Unicode property `White_Space`.
pub uninterp spec fn white_space(c: char) -> bool;

/// `char::is_whitespace`, which tells whether a character has the Unicode
/// property `White_Space`.
pub assume_specification[ char::is_whitespace ](c: char) -> (white: bool)
    ensures
        white == white_space(c),
;

/// How grcov is to be run.
#[derive(Debug, Default)]
pub struct GrcovConfig {
    /// Run no grcov: the covdir document is there already.
    pub skip_grcov: bool,
    /// Where the coverage data lie.
    pub coverage_path: String,
    /// The source directory (`-s`).
    pub source_dir: String,
    /// Where the binaries lie (`--binary-path`).
    pub binary_path: String,
    /// Keep only the files that match this pattern (`--keep-only`), if any.
    pub keep_only: String,
    /// The pattern that starts an excluded region (`--excl-start`), if any.
    pub excl_start: String,
    /// Count branches too (`--branch`).
    pub branch: bool,
    /// More arguments, separated by white space.
    pub grcov_args: String,
}

/// Strings, each by its view.
pub open spec fn texts(strings: Seq<String>) -> Seq<Seq<char>> {
    strings.map_values(|s: String| s@)
}

/// The words of a text: its longest runs of characters that are no white
/// space, in their order.
pub open spec fn words(text: Seq<char>) -> Seq<Seq<char>>
    decreases text.len(),
{
    if text.len() == 0 {
        Seq::empty()
    } else {
        let before = words(text.drop_last());
        if white_space(text.last()) {
            before
        } else if text.len() >= 2 && !white_space(text[text.len() - 2]) {
            before.drop_last().push(before.last().push(text.last()))
        } else {
            before.push(seq![text.last()])
        }
    }
}

/// `flag` and `value`, where there is a value; nothing where it is empty.
pub open spec fn optional(flag: Seq<char>, value: Seq<char>) -> Seq<Seq<char>> {
    if value.len() > 0 {
        seq![flag, value]
    } else {
        Seq::empty()
    }
}

/// The arguments of one run of grcov that writes a covdir document to
/// `output_path`. `llvm_path` is where the LLVM tools lie, where that is
/// known.
pub open spec fn arguments(
    config: GrcovConfig,
    llvm_path: Option<Seq<char>>,
    output_path: Seq<char>,
) -> Seq<Seq<char>> {
    seq![
        config.coverage_path@,
        "-s"@,
        config.source_dir@,
        "--binary-path"@,
        config.binary_path@,
        "-t"@,
        "covdir"@,
        "--llvm"@,
    ] + (match llvm_path {
        Some(path) => seq!["--llvm-path"@, path],
        None => Seq::empty(),
    }) + seq!["--ignore-not-existing"@] + optional("--keep-only"@, config.keep_only@) + optional(
        "--excl-start"@,
        config.excl_start@,
    ) + (if config.branch {
        seq!["--branch"@]
    } else {
        Seq::empty()
    }) + words(config.grcov_args@) + seq!["-o"@, output_path]
}

/// `pattern` stands in `text` at the place `at`.
pub open spec fn occurs_at(text: Seq<char>, pattern: Seq<char>, at: int) -> bool {
    0 <= at && at + pattern.len() <= text.len() && text.subrange(at, at + pattern.len())
        == pattern
}

/// `pattern` stands somewhere in `text`.
pub open spec fn occurs(text: Seq<char>, pattern: Seq<char>) -> bool {
    exists|at: int| occurs_at(text, pattern, at)
}

/// Why a run of grcov counts as failed.
#[derive(Clone, Copy, Debug, PartialEq, Eq, Structural)]
pub enum GrcovFailure {
    /// It ended with a status other than success.
    Status,
    /// It ended with success and wrote an error to its standard error.
    Reported,
}

/// What a run means that ended with or without `success` and wrote `stderr`
/// to its standard error.
pub open spec fn verdict(success: bool, stderr: Seq<char>) -> Option<GrcovFailure> {
    if !success {
        Some(GrcovFailure::Status)
    } else if occurs(stderr, "[ERROR]"@) {
        Some(GrcovFailure::Reported)
    } else {
        None
    }
}

fn push_text(list: &mut Vec<String>, text: &str)
    ensures
        texts(final(list)@) == texts(old(list)@).push(text@),
{
    let ghost before = texts(list@);
    list.push(String::from_str(text));
    assert(texts(list@) =~= before.push(text@));
}

/// The characters of a text.
fn characters(text: &str) -> (chars: Vec<char>)
    ensures
        chars@ == text@,
{
    let mut chars: Vec<char> = Vec::new();
    for c in it: text.chars()
        invariant
            it.seq() == text@,
            chars@ == text@.take(it.index() as int),
    {
        assert(text@.take(it.index() + 1) == text@.take(it.index() as int).push(c));
        chars.push(c);
    }
    assert(text@.take(text@.len() as int) == text@);
    chars
}

/// The words of `text`, as `str::split_whitespace` gives them.
pub fn split_whitespace(text: &str) -> (found: Vec<String>)
    ensures
        texts(found@) == words(text@),
{
    let chars = characters(text);
    let mut found: Vec<String> = Vec::new();
    let mut word = String::new();
    let mut i: usize = 0;
    assert(texts(found@) =~= Seq::empty());
    assert(chars@.take(0) =~= Seq::empty());
    while i < chars.len()
        invariant
            i <= chars.len(),
            words(chars@.take(i as int)) == if word@.len() > 0 {
                texts(found@).push(word@)
            } else {
                texts(found@)
            },
            word@.len() > 0 <==> i > 0 && !white_space(chars@[i - 1]),
        decreases chars.len() - i,
    {
        let c = chars[i];
        let ghost seen = chars@.take(i as int);
        assert(chars@.take(i + 1).drop_last() == seen);
        assert(chars@.take(i + 1).last() == c);
        if c.is_whitespace() {
            if !word.as_str().is_empty() {
                let ghost before = texts(found@);
                found.push(word);
                assert(texts(found@) =~= before.push(word@));
                word = String::new();
            }
        } else {
            let ghost open = word@;
            word.push(c);
            proof {
                let before = words(seen);
                if open.len() > 0 {
                    assert(before.drop_last() == texts(found@));
                    assert(chars@.take(i + 1)[i - 1] == chars@[i - 1]);
                } else {
                    assert(word@ == seq![c]);
                    if i > 0 {
                        assert(chars@.take(i + 1)[i - 1] == chars@[i - 1]);
                    }
                }
            }
        }
        i += 1;
    }
    assert(chars@.take(i as int) == chars@);
    if !word.as_str().is_empty() {
        let ghost before = texts(found@);
        found.push(word);
        assert(texts(found@) =~= before.push(word@));
    }
    found
}

/// No word is empty, and none holds white space.
pub proof fn lemma_words(text: Seq<char>)
    ensures
        forall|i: int|
            0 <= i < words(text).len() ==> (#[trigger] words(text)[i]).len() > 0 && forall|j: int|
                0 <= j < words(text)[i].len() ==> !white_space(#[trigger] words(text)[i][j]),
        text.len() > 0 && !white_space(text.last()) ==> words(text).len() > 0,
    decreases text.len(),
{
    if text.len() > 0 {
        let before = words(text.drop_last());
        let c = text.last();
        lemma_words(text.drop_last());
        assert forall|i: int| 0 <= i < words(text).len() implies (#[trigger] words(text)[i]).len()
            > 0 && forall|j: int|
            0 <= j < words(text)[i].len() ==> !white_space(#[trigger] words(text)[i][j]) by {
            if white_space(c) {
            } else if text.len() >= 2 && !white_space(text[text.len() - 2]) {
                assert(text.drop_last().last() == text[text.len() - 2]);
                if i < before.len() - 1 {
                    assert(words(text)[i] == before[i]);
                } else {
                    assert(words(text)[i] == before.last().push(c));
                }
            } else {
                if i < before.len() {
                    assert(words(text)[i] == before[i]);
                } else {
                    assert(words(text)[i] == seq![c]);
                }
            }
        }
    }
}

/// The arguments of one run of grcov that writes a covdir document to
/// `output_path`.
pub fn grcov_arguments(config: &GrcovConfig, llvm_path: Option<&str>, output_path: &str) -> (args:
    Vec<String>)
    ensures
        texts(args@) == arguments(
            *config,
            match llvm_path {
                Some(path) => Some(path@),
                None => None,
            },
            output_path@,
        ),
{
    let mut args: Vec<String> = Vec::new();
    assert(texts(args@) =~= Seq::empty());
    push_text(&mut args, config.coverage_path.as_str());
    push_text(&mut args, "-s");
    push_text(&mut args, config.source_dir.as_str());
    push_text(&mut args, "--binary-path");
    push_text(&mut args, config.binary_path.as_str());
    push_text(&mut args, "-t");
    push_text(&mut args, "covdir");
    push_text(&mut args, "--llvm");
    if let Some(path) = llvm_path {
        push_text(&mut args, "--llvm-path");
        push_text(&mut args, path);
    }
    push_text(&mut args, "--ignore-not-existing");
    if !config.keep_only.as_str().is_empty() {
        push_text(&mut args, "--keep-only");
        push_text(&mut args, config.keep_only.as_str());
    }
    if !config.excl_start.as_str().is_empty() {
        push_text(&mut args, "--excl-start");
        push_text(&mut args, config.excl_start.as_str());
    }
    if config.branch {
        push_text(&mut args, "--branch");
    }
    let mut more = split_whitespace(config.grcov_args.as_str());
    let ghost before = texts(args@);
    let ghost added = texts(more@);
    args.append(&mut more);
    assert(texts(args@) =~= before + added);
    push_text(&mut args, "-o");
    push_text(&mut args, output_path);
    assert(texts(args@) =~= arguments(
        *config,
        match llvm_path {
            Some(path) => Some(path@),
            None => None,
        },
        output_path@,
    ));
    args
}

/// Whether `pattern` stands somewhere in `text`.
pub fn contains(text: &str, pattern: &str) -> (found: bool)
    ensures
        found == occurs(text@, pattern@),
{
    let hay = characters(text);
    let needle = characters(pattern);
    if needle.len() > hay.len() {
        return false;
    }
    let last = hay.len() - needle.len();
    let mut at: usize = 0;
    while at <= last
        invariant
            hay@ == text@,
            needle@ == pattern@,
            at <= last + 1,
            last + needle.len() == hay.len(),
            forall|before: int| 0 <= before < at ==> !occurs_at(hay@, needle@, before),
        decreases last + 1 - at,
    {
        let mut i: usize = 0;
        while i < needle.len() && hay[at + i] == needle[i]
            invariant
                at <= last,
                last + needle.len() == hay.len(),
                i <= needle.len(),
                forall|j: int| 0 <= j < i ==> hay@[at + j] == needle@[j],
            decreases needle.len() - i,
        {
            i += 1;
        }
        if i == needle.len() {
            assert(hay@.subrange(at as int, at + needle.len()) =~= needle@);
            assert(occurs_at(hay@, needle@, at as int));
            return true;
        }
        assert(hay@.subrange(at as int, at + needle.len())[i as int] == hay@[at + i]);
        at += 1;
    }
    false
}

/// What a run of grcov means that ended with or without `success` and wrote
/// `stderr` to its standard error: the tool may end with success and yet
/// report an error there.
pub fn grcov_verdict(success: bool, stderr: &str) -> (failure: Option<GrcovFailure>)
    ensures
        failure == verdict(success, stderr@),
{
    if !success {
        Some(GrcovFailure::Status)
    } else if contains(stderr, "[ERROR]") {
        Some(GrcovFailure::Reported)
    } else {
        None
    }
}

} // verus!
