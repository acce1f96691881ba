//! Line search: the lines of a text that contain a query.

use vstd::prelude::*;

verus! {

/// The position of the first line feed in `text`, or its length if it has none.
pub open spec fn first_line_feed(text: Seq<char>) -> nat
    decreases text.len(),
{
    if text.len() == 0 || text[0] == '\n' {
        0
    } else {
        1 + first_line_feed(text.drop_first())
    }
}

/// `line` without the carriage return at its end, if it has one there.
pub open spec fn without_carriage_return(line: Seq<char>) -> Seq<char> {
    if line.len() > 0 && line.last() == '\r' {
        line.drop_last()
    } else {
        line
    }
}

/// The lines of `text`.
///
/// A line ends at a line feed, or at a carriage return directly followed
/// by a line feed; neither belongs to the line. The last line needs no
/// ending: what follows the last line feed is a line if it is not empty,
/// and a carriage return at its end stays part of it.
pub open spec fn lines_of(text: Seq<char>) -> Seq<Seq<char>>
    decreases text.len(),
{
    if text.len() == 0 {
        Seq::empty()
    } else {
        let end = first_line_feed(text) as int;
        if end >= text.len() {
            seq![text]
        } else {
            seq![without_carriage_return(text.take(end))] + lines_of(text.skip(end + 1))
        }
    }
}

/// `needle` stands in `hay` at position `at`.
pub open spec fn occurs_at(needle: Seq<char>, hay: Seq<char>, at: int) -> bool {
    0 <= at && at + needle.len() <= hay.len() && hay.subrange(at, at + needle.len()) == needle
}

/// `needle` stands somewhere in `hay`.
pub open spec fn is_substring(needle: Seq<char>, hay: Seq<char>) -> bool {
    exists|at: int| occurs_at(needle, hay, at)
}

/// The lower-case form that `str::to_lowercase` gives to `text`.
pub uninterp spec fn lowercase_of(text: Seq<char>) -> Seq<char>;

/// The characters of each string slice in `slices`.
pub open spec fn texts(slices: Seq<&str>) -> Seq<Seq<char>> {
    slices.map_values(|s: &str| s@)
}

/// The lines of `contents` in which `query` stands.
pub open spec fn matching_lines(query: Seq<char>, contents: Seq<char>) -> Seq<Seq<char>> {
    lines_of(contents).filter(|line: Seq<char>| is_substring(query, line))
}

/// The lines of `contents` in which `query` stands once both are put in
/// lower case.
pub open spec fn matching_lines_ignoring_case(query: Seq<char>, contents: Seq<char>) -> Seq<
    Seq<char>,
> {
    lines_of(contents).filter(
        |line: Seq<char>| is_substring(lowercase_of(query), lowercase_of(line)),
    )
}

/// Calls `str::lines` and collects what it yields. Trusted: the slices are
/// the lines of `contents` as `lines_of` describes them, in order.
#[verifier::external_body]
fn split_lines<'a>(contents: &'a str) -> (lines: Vec<&'a str>)
    ensures
        texts(lines@) == lines_of(contents@),
{
    contents.lines().collect()
}

/// Calls `str::contains` with a string pattern. Trusted: the answer is
/// whether `needle` equals some sub-slice of `hay`.
#[verifier::external_body]
fn str_contains(hay: &str, needle: &str) -> (found: bool)
    ensures
        found == is_substring(needle@, hay@),
{
    hay.contains(needle)
}

/// Calls `str::to_lowercase`. Trusted: the result depends on the characters
/// of `text` alone; it is named `lowercase_of`.
#[verifier::external_body]
fn str_to_lowercase(text: &str) -> (lower: String)
    ensures
        lower@ == lowercase_of(text@),
{
    text.to_lowercase()
}

/// Filtering one more element: the filter of the first `i + 1` elements is
/// that of the first `i`, with element `i` added if it passes.
proof fn lemma_filter_next<A>(s: Seq<A>, pred: spec_fn(A) -> bool, i: int)
    requires
        0 <= i < s.len(),
    ensures
        s.take(i + 1).filter(pred) == if pred(s[i]) {
            s.take(i).filter(pred).push(s[i])
        } else {
            s.take(i).filter(pred)
        },
{
    reveal(Seq::filter);
    assert(s.take(i + 1).drop_last() =~= s.take(i));
}

/// Whether `needle` stands in `hay`.
pub fn contains_text(hay: &str, needle: &str) -> (found: bool)
    ensures
        found == is_substring(needle@, hay@),
{
    str_contains(hay, needle)
}

/// The lines of `contents` that contain `query`, in order.
pub fn search<'a>(query: &str, contents: &'a str) -> (found: Vec<&'a str>)
    ensures
        texts(found@) == matching_lines(query@, contents@),
{
    let lines = split_lines(contents);
    let ghost all = lines_of(contents@);
    let ghost pred = |line: Seq<char>| is_substring(query@, line);
    let mut found: Vec<&'a str> = Vec::new();
    let mut i: usize = 0;
    proof {
        reveal(Seq::filter);
        assert(all.take(0).len() == 0);
        assert(texts(found@) =~= all.take(0).filter(pred));
    }
    while i < lines.len()
        invariant
            i <= lines@.len(),
            texts(lines@) == all,
            texts(found@) == all.take(i as int).filter(pred),
            pred == (|line: Seq<char>| is_substring(query@, line)),
        decreases lines@.len() - i,
    {
        let line = lines[i];
        proof {
            lemma_filter_next(all, pred, i as int);
            assert(all[i as int] == line@);
        }
        if contains_text(line, query) {
            let ghost before = found@;
            found.push(line);
            assert(texts(found@) =~= texts(before).push(line@));
        }
        i += 1;
    }
    proof {
        assert(all.take(i as int) =~= all);
    }
    found
}

/// The lines of `contents` that contain `query` when case is ignored, in
/// order: a line is kept if its lower-case form contains the lower-case
/// form of `query`.
pub fn search_case_insensitive<'a>(query: &str, contents: &'a str) -> (found: Vec<&'a str>)
    ensures
        texts(found@) == matching_lines_ignoring_case(query@, contents@),
{
    let lines = split_lines(contents);
    let needle = str_to_lowercase(query);
    let ghost all = lines_of(contents@);
    let ghost pred = |line: Seq<char>| is_substring(lowercase_of(query@), lowercase_of(line));
    let mut found: Vec<&'a str> = Vec::new();
    let mut i: usize = 0;
    proof {
        reveal(Seq::filter);
        assert(all.take(0).len() == 0);
        assert(texts(found@) =~= all.take(0).filter(pred));
    }
    while i < lines.len()
        invariant
            i <= lines@.len(),
            texts(lines@) == all,
            needle@ == lowercase_of(query@),
            texts(found@) == all.take(i as int).filter(pred),
            pred == (|line: Seq<char>| is_substring(lowercase_of(query@), lowercase_of(line))),
        decreases lines@.len() - i,
    {
        let line = lines[i];
        let key = str_to_lowercase(line);
        proof {
            lemma_filter_next(all, pred, i as int);
            assert(all[i as int] == line@);
        }
        if contains_text(key.as_str(), needle.as_str()) {
            let ghost before = found@;
            found.push(line);
            assert(texts(found@) =~= texts(before).push(line@));
        }
        i += 1;
    }
    proof {
        assert(all.take(i as int) =~= all);
    }
    found
}

/// What to search for, where, and how.
pub struct Config {
    pub query: String,
    pub file_path: String,
    pub ignore_case: bool,
}

impl Config {
    /// Reads a configuration from command-line arguments. The first
    /// argument is the program's name and is skipped; the second is the
    /// query, the third the path of the file; any further ones are ignored.
    /// `ignore_case` is taken as given.
    pub fn build(args: Vec<String>, ignore_case: bool) -> (r: Result<Config, &'static str>)
        ensures
            args@.len() < 2 ==> (r matches Err(e) && e@ == "Didn't get a query string"@),
            args@.len() == 2 ==> (r matches Err(e) && e@ == "Didn't get a file path"@),
            args@.len() >= 3 ==> (r matches Ok(config) && config.query@ == args@[1]@
                && config.file_path@ == args@[2]@ && config.ignore_case == ignore_case),
    {
        if args.len() < 2 {
            return Err("Didn't get a query string");
        }
        if args.len() < 3 {
            return Err("Didn't get a file path");
        }
        Ok(Config { query: args[1].clone(), file_path: args[2].clone(), ignore_case })
    }
}

/// The lines of `contents` that `config` asks for: those that contain its
/// query, with or without regard to case.
pub fn run<'a>(config: &Config, contents: &'a str) -> (found: Vec<&'a str>)
    ensures
        config.ignore_case ==> texts(found@) == matching_lines_ignoring_case(
            config.query@,
            contents@,
        ),
        !config.ignore_case ==> texts(found@) == matching_lines(config.query@, contents@),
{
    if config.ignore_case {
        search_case_insensitive(config.query.as_str(), contents)
    } else {
        search(config.query.as_str(), contents)
    }
}

} // verus!
