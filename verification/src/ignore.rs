//! Building the ignore-pattern list and testing relative paths against it.

use vstd::prelude::*;
use crate::wildcard::{wild_matches, wild_match, lemma_wild_self_match};

verus! {

/// The index of the first newline in `s`, or `s.len()` if there is none.
pub open spec fn first_newline(s: Seq<char>) -> nat
    decreases s.len(),
{
    if s.len() == 0 {
        0
    } else if s[0] == '\n' {
        0
    } else {
        (1 + first_newline(s.skip(1))) as nat
    }
}

/// `first_newline` names the first newline indeed: nothing before it is a
/// newline, and it stands on one unless `s` holds none at all.
pub proof fn lemma_first_newline(s: Seq<char>)
    ensures
        first_newline(s) <= s.len(),
        first_newline(s) < s.len() ==> s[first_newline(s) as int] == '\n',
        forall|k: int| 0 <= k < first_newline(s) ==> s[k] != '\n',
    decreases s.len(),
{
    if s.len() == 0 {
    } else if s[0] == '\n' {
    } else {
        lemma_first_newline(s.skip(1));
        assert forall|k: int| 0 <= k < first_newline(s) implies s[k] != '\n' by {
            if k > 0 {
                assert(s.skip(1)[k - 1] != '\n');
            }
        }
    }
}

/// One line as `str::lines` yields it from a piece that ended at a newline:
/// a single carriage return standing right before the newline is stripped.
pub open spec fn line_of(piece: Seq<char>) -> Seq<char> {
    if piece.len() > 0 && piece.last() == '\r' {
        piece.drop_last()
    } else {
        piece
    }
}

/// The lines of `s`, as `str::lines` yields them: pieces split at `'\n'`,
/// each stripped of a carriage return standing right before the newline; a
/// final piece without a newline is yielded verbatim, and a trailing newline
/// yields no final empty line.
pub open spec fn split_lines(s: Seq<char>) -> Seq<Seq<char>>
    decreases s.len(),
{
    if s.len() == 0 {
        Seq::empty()
    } else {
        let i: int = first_newline(s) as int;
        if i >= s.len() {
            seq![s]
        } else {
            seq![line_of(s.take(i))] + split_lines(s.skip(i + 1))
        }
    }
}

/// A pattern line rewritten for a platform whose path separator is the
/// backslash: every forward slash becomes a backslash.
pub open spec fn rewrite_sep(line: Seq<char>) -> Seq<char> {
    line.map_values(|c: char| if c == '/' { '\\' } else { c })
}

/// The view of an optional borrowed ignore-file text.
pub open spec fn opt_text_view(contents: Option<&String>) -> Option<Seq<char>> {
    match contents {
        Some(text) => Some(text@),
        None => None,
    }
}

/// The ignore list built from the contents of an ignore file (`None` when
/// the file is absent or unreadable), the base name of the output file, and
/// whether the platform writes paths with backslashes: the file's lines,
/// rewritten where asked, with the output file's name appended last.
pub open spec fn ignore_list_spec(
    contents: Option<Seq<char>>,
    output_name: Seq<char>,
    backslash_paths: bool,
) -> Seq<Seq<char>> {
    (match contents {
        Some(text) => if backslash_paths {
            split_lines(text).map_values(|l: Seq<char>| rewrite_sep(l))
        } else {
            split_lines(text)
        },
        None => Seq::<Seq<char>>::empty(),
    }).push(output_name)
}

/// Whether `path` matches at least one of the patterns.
pub open spec fn matches_any(patterns: Seq<Seq<char>>, path: Seq<char>) -> bool {
    exists|k: int| 0 <= k < patterns.len() && wild_matches(patterns[k], path)
}

/// The position of the first newline at or after `start`, or `len` if the
/// rest of `s` holds none.
fn find_newline(s: &str, start: usize, len: usize) -> (j: usize)
    requires
        len == s@.len(),
        start <= len,
    ensures
        start <= j <= len,
        forall|k: int| start <= k < j ==> s@[k] != '\n',
        j < len ==> s@[j as int] == '\n',
{
    let mut j: usize = start;
    while j < len
        invariant
            start <= j <= len,
            len == s@.len(),
            forall|k: int| start <= k < j ==> s@[k] != '\n',
        decreases len - j,
    {
        if s.get_char(j) == '\n' {
            return j;
        }
        j = j + 1;
    }
    j
}

/// The lines of `s`, as `str::lines` yields them.
pub fn lines_of(s: &str) -> (lines: Vec<String>)
    ensures
        lines.deep_view() == split_lines(s@),
{
    let len: usize = s.unicode_len();
    let mut lines: Vec<String> = Vec::new();
    let mut start: usize = 0;
    proof {
        assert(s@.skip(0) =~= s@);
        assert(lines.deep_view() =~= Seq::<Seq<char>>::empty());
        assert(lines.deep_view() + split_lines(s@) =~= split_lines(s@));
    }
    while start < len
        invariant
            start <= len,
            len == s@.len(),
            lines.deep_view() + split_lines(s@.skip(start as int)) == split_lines(s@),
        decreases len - start,
    {
        let j: usize = find_newline(s, start, len);
        let ghost rest = s@.skip(start as int);
        proof {
            lemma_first_newline(rest);
            // the scan and `first_newline` pick out the same position
            assert forall|k: int| 0 <= k < j - start implies rest[k] != '\n' by {
                assert(s@[start + k] != '\n');
            }
            if j < len {
                assert(rest[j - start] == '\n');
            }
            if first_newline(rest) < j - start {
                assert(s@[start + first_newline(rest)] == '\n');
                assert(false);
            }
            if first_newline(rest) > j - start {
                assert(j < len);
                assert(rest[j - start] != '\n');
                assert(false);
            }
            assert(first_newline(rest) == j - start);
        }
        let end: usize = if j < len && j > start && s.get_char(j - 1) == '\r' {
            j - 1
        } else {
            j
        };
        let piece = s.substring_char(start, end);
        let line = String::from_str(piece);
        proof {
            let i: int = j - start;
            if j < len {
                assert(rest.take(i) =~= s@.subrange(start as int, j as int));
                assert(line@ =~= line_of(rest.take(i)));
                assert(rest.skip(i + 1) =~= s@.skip(j + 1));
                assert(split_lines(rest) == seq![line_of(rest.take(i))] + split_lines(
                    rest.skip(i + 1)));
            } else {
                assert(line@ =~= rest);
                assert(split_lines(rest) == seq![rest]);
            }
        }
        let ghost old_lines = lines.deep_view();
        lines.push(line);
        proof {
            assert(lines.deep_view() =~= old_lines.push(line@));
            if j < len {
                assert(old_lines.push(line@) + split_lines(s@.skip(j + 1)) =~= old_lines + (seq![
                    line@,
                ] + split_lines(s@.skip(j + 1))));
            } else {
                assert(split_lines(s@.skip(len as int)) =~= Seq::<Seq<char>>::empty());
                assert(old_lines.push(line@) + split_lines(s@.skip(len as int)) =~= old_lines + (
                seq![line@] + Seq::<Seq<char>>::empty()));
            }
        }
        start = if j < len {
            j + 1
        } else {
            len
        };
    }
    proof {
        assert(s@.skip(len as int) =~= Seq::<char>::empty());
        assert(lines.deep_view() + split_lines(s@.skip(len as int)) =~= lines.deep_view());
    }
    lines
}

/// `line` with every forward slash rewritten to a backslash.
pub fn rewrite_separators(line: &str) -> (r: String)
    ensures
        r@ == rewrite_sep(line@),
{
    let len: usize = line.unicode_len();
    let mut r = String::new();
    let mut i: usize = 0;
    while i < len
        invariant
            i <= len,
            len == line@.len(),
            r@ == rewrite_sep(line@.take(i as int)),
        decreases len - i,
    {
        if line.get_char(i) == '/' {
            r.append("\\");
            proof {
                reveal_strlit("\\");
                assert("\\"@ =~= seq!['\\']);
            }
        } else {
            let c = line.substring_char(i, i + 1);
            r.append(c);
            proof {
                assert(c@ =~= seq![line@[i as int]]);
            }
        }
        i = i + 1;
        proof {
            assert(r@ =~= rewrite_sep(line@.take(i as int)));
        }
    }
    proof {
        assert(line@.take(len as int) =~= line@);
    }
    r
}

/// The ignore list for one run: the lines of the ignore file, rewritten to
/// backslash separators where the platform asks for it, with the output
/// file's base name appended so the artifact never includes itself.
pub fn build_ignore_list(
    contents: Option<&String>,
    output_file_name: &str,
    backslash_paths: bool,
) -> (list: Vec<String>)
    ensures
        list.deep_view() == ignore_list_spec(
            opt_text_view(contents),
            output_file_name@,
            backslash_paths,
        ),
{
    let mut list: Vec<String> = match contents {
        Some(text) => {
            let raw = lines_of(text.as_str());
            if backslash_paths {
                let mut rewritten: Vec<String> = Vec::new();
                let mut i: usize = 0;
                while i < raw.len()
                    invariant
                        i <= raw.len(),
                        raw.deep_view() == split_lines(text@),
                        rewritten.deep_view() == raw.deep_view().take(i as int).map_values(
                            |l: Seq<char>| rewrite_sep(l),
                        ),
                    decreases raw.len() - i,
                {
                    let ghost old_rewritten = rewritten.deep_view();
                    let line = rewrite_separators(raw[i].as_str());
                    rewritten.push(line);
                    proof {
                        assert(rewritten.deep_view() =~= old_rewritten.push(line@));
                        assert(rewritten.deep_view() =~= raw.deep_view().take(
                            i + 1,
                        ).map_values(|l: Seq<char>| rewrite_sep(l)));
                    }
                    i = i + 1;
                }
                proof {
                    assert(raw.deep_view().take(raw.len() as int) =~= raw.deep_view());
                }
                rewritten
            } else {
                raw
            }
        },
        None => Vec::new(),
    };
    proof {
        if contents is None {
            assert(list.deep_view() =~= Seq::<Seq<char>>::empty());
        }
    }
    let name = output_file_name.to_owned();
    let ghost before = list.deep_view();
    list.push(name);
    proof {
        assert(list.deep_view() =~= before.push(output_file_name@));
    }
    list
}

/// Whether the file at `file_path` (relative to the scanned root) is
/// excluded: true exactly when some pattern of the list matches it.
pub fn should_ignore(file_path: &str, ignore_list: &Vec<String>) -> (r: bool)
    ensures
        r == matches_any(ignore_list.deep_view(), file_path@),
{
    let mut k: usize = 0;
    while k < ignore_list.len()
        invariant
            k <= ignore_list.len(),
            forall|m: int| 0 <= m < k ==> !wild_matches(ignore_list.deep_view()[m], file_path@),
        decreases ignore_list.len() - k,
    {
        if wild_match(ignore_list[k].as_str(), file_path) {
            proof {
                assert(wild_matches(ignore_list.deep_view()[k as int], file_path@));
            }
            return true;
        }
        k = k + 1;
    }
    false
}

/// The output file's own name, appended to every ignore list, matches itself
/// as a pattern, so a file whose relative path is that name is always
/// excluded — even when the ignore file is empty or absent.
pub proof fn lemma_output_name_ignored(
    contents: Option<Seq<char>>,
    output_name: Seq<char>,
    backslash_paths: bool,
)
    ensures
        matches_any(ignore_list_spec(contents, output_name, backslash_paths), output_name),
{
    let pats = ignore_list_spec(contents, output_name, backslash_paths);
    lemma_wild_self_match(output_name);
    assert(pats[pats.len() - 1] == output_name);
    assert(wild_matches(pats[pats.len() - 1], output_name));
}

} // verus!
