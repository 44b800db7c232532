//! Assembling the delimited text artifact from the files of the scanned tree.

use vstd::prelude::*;
use vstd::utf8::{valid_utf8, decode_utf8};
use crate::ignore::{matches_any, ignore_list_spec, should_ignore, lemma_output_name_ignored};

verus! {

/// One regular file found under the scanned root: its path relative to that
/// root and its raw contents.
pub struct FileEntry {
    pub rel_path: String,
    pub contents: Vec<u8>,
}

/// What `String::from_utf8_lossy` decodes a byte sequence to: a function of
/// the bytes alone.
pub uninterp spec fn utf8_lossy(bytes: Seq<u8>) -> Seq<char>;

/// Relies on String::from_utf8_lossy: the decoding depends on the bytes
/// alone (invalid sequences become replacement characters), and valid UTF-8
/// decodes to exactly the characters it encodes.
#[verifier::external_body]
fn decode_utf8_lossy(bytes: &Vec<u8>) -> (r: String)
    ensures
        r@ == utf8_lossy(bytes@),
        valid_utf8(bytes@) ==> r@ == decode_utf8(bytes@),
{
    String::from_utf8_lossy(bytes.as_slice()).into_owned()
}

/// The separator line that opens every record.
pub open spec fn separator_text() -> Seq<char> {
    "----\n"@
}

/// The line break written after the preamble, the path line and the
/// contents.
pub open spec fn newline_text() -> Seq<char> {
    "\n"@
}

/// The terminator line that closes the artifact.
pub open spec fn terminator_text() -> Seq<char> {
    "--END--\n"@
}

/// The record written for one included file: the separator line, the
/// relative path on a line of its own, then the contents decoded as UTF-8
/// with invalid sequences replaced, followed by a line break.
pub open spec fn record_text(rel_path: Seq<char>, contents: Seq<u8>) -> Seq<char> {
    separator_text() + rel_path + newline_text() + utf8_lossy(contents) + newline_text()
}

/// What one file contributes to the artifact: its record, or nothing when
/// some ignore pattern matches its relative path.
pub open spec fn entry_record(entry: FileEntry, patterns: Seq<Seq<char>>) -> Seq<char> {
    if matches_any(patterns, entry.rel_path@) {
        Seq::empty()
    } else {
        record_text(entry.rel_path@, entry.contents@)
    }
}

/// The concatenated records of the files that the patterns do not exclude,
/// in walk order.
pub open spec fn records_text(files: Seq<FileEntry>, patterns: Seq<Seq<char>>) -> Seq<char>
    decreases files.len(),
{
    if files.len() == 0 {
        Seq::empty()
    } else {
        entry_record(files[0], patterns) + records_text(files.skip(1), patterns)
    }
}

/// The whole artifact: the preamble on its own line, then the records of
/// the included files, then the terminator line.
pub open spec fn output_text(
    preamble: Seq<char>,
    files: Seq<FileEntry>,
    patterns: Seq<Seq<char>>,
) -> Seq<char> {
    preamble + newline_text() + records_text(files, patterns) + terminator_text()
}

/// The records of two file runs, walked one after the other, are the
/// records of the first followed by the records of the second.
pub proof fn lemma_records_text_concat(a: Seq<FileEntry>, b: Seq<FileEntry>, patterns: Seq<Seq<char>>)
    ensures
        records_text(a + b, patterns) == records_text(a, patterns) + records_text(b, patterns),
    decreases a.len(),
{
    if a.len() == 0 {
        assert(a + b =~= b);
        assert(records_text(a, patterns) + records_text(b, patterns) =~= records_text(b, patterns));
    } else {
        lemma_records_text_concat(a.skip(1), b, patterns);
        assert((a + b).skip(1) =~= a.skip(1) + b);
        assert((a + b)[0] == a[0]);
        assert(entry_record(a[0], patterns) + (records_text(a.skip(1), patterns) + records_text(
            b,
            patterns,
        )) =~= (entry_record(a[0], patterns) + records_text(a.skip(1), patterns)) + records_text(
            b,
            patterns,
        ));
    }
}

/// The records of a single file are exactly its contribution.
proof fn lemma_records_text_singleton(entry: FileEntry, patterns: Seq<Seq<char>>)
    ensures
        records_text(seq![entry], patterns) == entry_record(entry, patterns),
{
    assert(seq![entry].skip(1) =~= Seq::<FileEntry>::empty());
    assert(entry_record(entry, patterns) + records_text(seq![entry].skip(1), patterns)
        =~= entry_record(entry, patterns));
}

/// The record for one included file.
pub fn render_record(rel_path: &str, contents: &Vec<u8>) -> (r: String)
    ensures
        r@ == record_text(rel_path@, contents@),
{
    let decoded = decode_utf8_lossy(contents);
    let mut r = String::new();
    r.append("----\n");
    r.append(rel_path);
    r.append("\n");
    r.append(decoded.as_str());
    r.append("\n");
    proof {
        assert(r@ =~= record_text(rel_path@, contents@));
    }
    r
}

/// The full artifact for one run: the preamble, then one record for every
/// file of `files` (in their given order) whose relative path matches no
/// pattern of `ignore_list`, then the terminator line.
pub fn generate_output(preamble: &str, files: &Vec<FileEntry>, ignore_list: &Vec<String>) -> (out:
    String)
    ensures
        out@ == output_text(preamble@, files@, ignore_list.deep_view()),
{
    let ghost pats = ignore_list.deep_view();
    let mut out = String::new();
    out.append(preamble);
    out.append("\n");
    let mut i: usize = 0;
    proof {
        assert(files@.take(0) =~= Seq::<FileEntry>::empty());
        assert(out@ =~= preamble@ + newline_text() + records_text(files@.take(0), pats));
    }
    while i < files.len()
        invariant
            i <= files.len(),
            pats == ignore_list.deep_view(),
            out@ == preamble@ + newline_text() + records_text(files@.take(i as int), pats),
        decreases files.len() - i,
    {
        let entry = &files[i];
        if !should_ignore(entry.rel_path.as_str(), ignore_list) {
            let rec = render_record(entry.rel_path.as_str(), &entry.contents);
            out.append(rec.as_str());
        }
        proof {
            assert(files@.take(i + 1) =~= files@.take(i as int) + seq![files@[i as int]]);
            lemma_records_text_concat(files@.take(i as int), seq![files@[i as int]], pats);
            lemma_records_text_singleton(files@[i as int], pats);
            assert(out@ =~= preamble@ + newline_text() + records_text(files@.take(i + 1), pats));
        }
        i = i + 1;
    }
    out.append("--END--\n");
    proof {
        assert(files@.take(files@.len() as int) =~= files@);
        assert(out@ =~= output_text(preamble@, files@, pats));
    }
    out
}

/// The fixed explanatory preamble used when the caller supplies none: it
/// describes the artifact's format to a downstream reader.
pub fn default_preamble() -> (s: &'static str)
    ensures
        s@ == default_preamble_text(),
{
    "The following text is a Git repository with code. The structure of the text are sections that begin with ----, followed by a single line containing the file path and file name, followed by a variable amount of lines containing the file contents. The text representing the Git repository ends when the symbols --END-- are encounted. Any further text beyond --END-- are meant to be interpreted as instructions using the aforementioned Git repository as context."
}

/// The view of the fixed default preamble.
pub open spec fn default_preamble_text() -> Seq<char> {
    "The following text is a Git repository with code. The structure of the text are sections that begin with ----, followed by a single line containing the file path and file name, followed by a variable amount of lines containing the file contents. The text representing the Git repository ends when the symbols --END-- are encounted. Any further text beyond --END-- are meant to be interpreted as instructions using the aforementioned Git repository as context."@
}

/// A file whose relative path matches an ignore pattern leaves no trace in
/// the artifact: the output over all files equals the output with that file
/// taken out of the walk.
pub proof fn lemma_ignored_file_excluded(
    preamble: Seq<char>,
    files: Seq<FileEntry>,
    patterns: Seq<Seq<char>>,
    i: int,
)
    requires
        0 <= i < files.len(),
        matches_any(patterns, files[i].rel_path@),
    ensures
        output_text(preamble, files.remove(i), patterns) == output_text(preamble, files, patterns),
{
    assert(files =~= files.take(i) + (seq![files[i]] + files.skip(i + 1)));
    lemma_records_text_concat(files.take(i), seq![files[i]] + files.skip(i + 1), patterns);
    lemma_records_text_concat(seq![files[i]], files.skip(i + 1), patterns);
    lemma_records_text_singleton(files[i], patterns);
    assert(files.remove(i) =~= files.take(i) + files.skip(i + 1));
    lemma_records_text_concat(files.take(i), files.skip(i + 1), patterns);
    assert(records_text(files, patterns) =~= records_text(files.remove(i), patterns));
    assert(output_text(preamble, files.remove(i), patterns) =~= output_text(
        preamble,
        files,
        patterns,
    ));
}

/// With an ignore list built for `output_name`, a file whose relative path
/// is exactly that name leaves no trace in the artifact — even when the
/// ignore file is empty or absent.
pub proof fn lemma_output_file_excluded(
    preamble: Seq<char>,
    files: Seq<FileEntry>,
    contents: Option<Seq<char>>,
    output_name: Seq<char>,
    backslash_paths: bool,
    i: int,
)
    requires
        0 <= i < files.len(),
        files[i].rel_path@ == output_name,
    ensures
        output_text(
            preamble,
            files.remove(i),
            ignore_list_spec(contents, output_name, backslash_paths),
        ) == output_text(preamble, files, ignore_list_spec(contents, output_name, backslash_paths)),
{
    lemma_output_name_ignored(contents, output_name, backslash_paths);
    lemma_ignored_file_excluded(
        preamble,
        files,
        ignore_list_spec(contents, output_name, backslash_paths),
        i,
    );
}

/// The artifact always begins with the preamble and always ends with the
/// terminator line, whatever files the walk yields.
pub proof fn lemma_output_framing(
    preamble: Seq<char>,
    files: Seq<FileEntry>,
    patterns: Seq<Seq<char>>,
)
    ensures
        output_text(preamble, files, patterns).len() >= preamble.len() + terminator_text().len(),
        output_text(preamble, files, patterns).take(preamble.len() as int) == preamble,
        output_text(preamble, files, patterns).skip(
            output_text(preamble, files, patterns).len() - terminator_text().len(),
        ) == terminator_text(),
{
    let out = output_text(preamble, files, patterns);
    assert(out.take(preamble.len() as int) =~= preamble);
    assert(out.skip(out.len() - terminator_text().len()) =~= terminator_text());
}

/// Two runs over the same preamble, the same files in the same order and
/// the same patterns yield the same text: the artifact is a function of
/// those inputs alone, so repeated runs are byte-identical.
pub proof fn lemma_output_deterministic(
    preamble1: Seq<char>,
    files1: Seq<FileEntry>,
    patterns1: Seq<Seq<char>>,
    preamble2: Seq<char>,
    files2: Seq<FileEntry>,
    patterns2: Seq<Seq<char>>,
)
    requires
        preamble1 == preamble2,
        files1 == files2,
        patterns1 == patterns2,
    ensures
        output_text(preamble1, files1, patterns1) == output_text(preamble2, files2, patterns2),
{
}

/// A file that no pattern excludes always contributes its record, whatever
/// bytes it holds: the record — its contents decoded with invalid sequences
/// replaced — stands in the artifact as a contiguous span.
pub proof fn lemma_included_file_has_record(
    preamble: Seq<char>,
    files: Seq<FileEntry>,
    patterns: Seq<Seq<char>>,
    i: int,
)
    requires
        0 <= i < files.len(),
        !matches_any(patterns, files[i].rel_path@),
    ensures
        ({
            let out = output_text(preamble, files, patterns);
            let rec = record_text(files[i].rel_path@, files[i].contents@);
            exists|j: int|
                0 <= j && j + rec.len() <= out.len() && #[trigger] out.subrange(j, j + rec.len())
                    == rec
        }),
{
    let out = output_text(preamble, files, patterns);
    let rec = record_text(files[i].rel_path@, files[i].contents@);
    assert(files =~= files.take(i) + (seq![files[i]] + files.skip(i + 1)));
    lemma_records_text_concat(files.take(i), seq![files[i]] + files.skip(i + 1), patterns);
    lemma_records_text_concat(seq![files[i]], files.skip(i + 1), patterns);
    lemma_records_text_singleton(files[i], patterns);
    let j: int = (preamble.len() + newline_text().len() + records_text(
        files.take(i),
        patterns,
    ).len()) as int;
    assert(out.subrange(j, j + rec.len()) =~= rec);
}

} // verus!
