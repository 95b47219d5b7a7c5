//! The ignore filter: decides which file names take part in a scan.
//!
//! The filter is built from the lines of an ignore-pattern file: blank
//! lines and lines beginning with `#` are skipped, every remaining line is
//! compiled as one regular expression, and a file name is ignored when any
//! compiled pattern matches it. Pattern compilation and matching live in
//! the `regex` crate and are trusted at their interface; the line filtering
//! is verified here.

use vstd::prelude::*;

verus! {

#[verifier::external_type_specification]
#[verifier::external_body]
pub struct ExRegexSet(regex::RegexSet);

#[verifier::external_type_specification]
#[verifier::external_body]
pub struct ExRegexError(regex::Error);

/// What a compiled pattern set holds: the texts of the patterns it was
/// built from, in order.
pub uninterp spec fn compiled_patterns(s: regex::RegexSet) -> Seq<Seq<char>>;

/// Whether any of the given patterns, read as regular expressions, matches
/// the given text. This names the outcome of `regex::RegexSet::is_match`,
/// which depends on the patterns and the text alone.
pub uninterp spec fn regex_match(patterns: Seq<Seq<char>>, text: Seq<char>) -> bool;

/// Whether every one of the given patterns compiles as a regular
/// expression. This names the success of `regex::RegexSet::new`, which
/// depends on the pattern texts alone.
pub uninterp spec fn regex_compiles(patterns: Seq<Seq<char>>) -> bool;

/// The views of a list of lines.
pub open spec fn str_views(lines: Seq<String>) -> Seq<Seq<char>> {
    lines.map_values(|l: String| l@)
}

/// Whether a line of an ignore-pattern file is a pattern: it is not blank
/// and is not a comment beginning with `#`.
pub open spec fn spec_pattern_line(line: Seq<char>) -> bool {
    line.len() > 0 && line[0] != '#'
}

/// The pattern lines of an ignore-pattern file, in order: blank lines and
/// comment lines are skipped.
pub open spec fn effective_patterns(lines: Seq<Seq<char>>) -> Seq<Seq<char>>
    decreases lines.len(),
{
    if lines.len() == 0 {
        Seq::<Seq<char>>::empty()
    } else {
        effective_patterns(lines.drop_last()) + (if spec_pattern_line(lines.last()) {
            seq![lines.last()]
        } else {
            Seq::<Seq<char>>::empty()
        })
    }
}

/// Why an ignore filter could not be built.
#[derive(Clone, Copy, Debug, PartialEq, Eq, Structural)]
pub enum FilterError {
    /// A pattern line did not compile as a regular expression.
    InvalidPattern,
}

/// Relies on `regex::RegexSet::new`: it succeeds exactly when every given
/// pattern compiles, a function of the pattern texts alone, and on success
/// the returned set compiles exactly the given patterns, in order.
#[verifier::external_body]
fn regex_set_new(patterns: &Vec<String>) -> (r: Result<regex::RegexSet, regex::Error>)
    ensures
        (r is Ok) == regex_compiles(str_views(patterns@)),
        r matches Ok(s) ==> compiled_patterns(s) == str_views(patterns@),
{
    regex::RegexSet::new(patterns)
}

/// Relies on `regex::RegexSet::is_match`: true exactly when at least one
/// pattern of the set matches the text.
#[verifier::external_body]
fn regex_set_is_match(set: &regex::RegexSet, text: &String) -> (r: bool)
    ensures
        r == regex_match(compiled_patterns(*set), text@),
{
    set.is_match(text.as_str())
}

/// The ignore filter: a compiled set of file-name patterns.
pub struct FileFilter {
    patterns: regex::RegexSet,
}

impl FileFilter {
    /// The texts of the patterns this filter was compiled from.
    pub closed spec fn patterns(self) -> Seq<Seq<char>> {
        compiled_patterns(self.patterns)
    }

    /// Builds the filter from the lines of an ignore-pattern file. Blank
    /// lines and lines beginning with `#` are skipped; every remaining line
    /// is compiled as one file-name pattern. Construction succeeds exactly
    /// when every kept pattern line compiles as a regular expression.
    pub fn from_gitignore(lines: &Vec<String>) -> (r: Result<FileFilter, FilterError>)
        ensures
            (r is Ok) == regex_compiles(effective_patterns(str_views(lines@))),
            r matches Ok(f) ==> f.patterns() == effective_patterns(str_views(lines@)),
    {
        let n = lines.len();
        let mut kept: Vec<String> = Vec::new();
        let mut j: usize = 0;
        while j < n
            invariant
                j <= n,
                n == lines@.len(),
                str_views(kept@) == effective_patterns(str_views(lines@.take(j as int))),
            decreases n - j,
        {
            let ghost prev = kept@;
            let line = &lines[j];
            if !line.as_str().is_empty() {
                let first = line.as_str().get_char(0);
                if first != '#' {
                    kept.push(line.clone());
                    proof {
                        assert(str_views(kept@) =~= str_views(prev).push(lines@[j as int]@));
                    }
                }
            }
            proof {
                let taken = str_views(lines@.take(j + 1));
                assert(taken.drop_last() =~= str_views(lines@.take(j as int)));
                assert(taken.last() == lines@[j as int]@);
                if spec_pattern_line(lines@[j as int]@) {
                    assert(str_views(kept@) =~= effective_patterns(
                        str_views(lines@.take(j as int)),
                    ) + seq![lines@[j as int]@]);
                } else {
                    assert(str_views(kept@) =~= effective_patterns(
                        str_views(lines@.take(j as int)),
                    ) + Seq::<Seq<char>>::empty());
                }
                assert(str_views(kept@) =~= effective_patterns(taken));
            }
            j = j + 1;
        }
        proof {
            assert(lines@.take(n as int) =~= lines@);
        }
        match regex_set_new(&kept) {
            Ok(set) => Ok(FileFilter { patterns: set }),
            Err(_) => Err(FilterError::InvalidPattern),
        }
    }

    /// Whether any ignore pattern matches the given file base name.
    pub fn matches(&self, name: &String) -> (r: bool)
        ensures
            r == regex_match(self.patterns(), name@),
    {
        regex_set_is_match(&self.patterns, name)
    }
}

} // verus!
