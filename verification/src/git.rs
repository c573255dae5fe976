//! The diff splitter.
//!
//! A diff that is longer than the threshold is cut into chunks that each fit
//! it. Four ways of cutting are tried in turn: by file, by hunk, and by windows
//! of a fixed number of characters, first of half the threshold and then of a
//! quarter. The first whose chunks all fit gives the result.
use crate::text::{
    append, begins_with, chars_of, decimal, decimal_of, find_from, find_in, is_space,
    is_whitespace, lemma_find_from, lines_of, slice_of, split_lines, starts_with, string_of,
    texts, trim, trimmed, unlines,
};
use vstd::prelude::*;

verus! {

/// The greatest length, in characters, of a diff that is not split, and of a
/// chunk of one that is.
pub const DIFF_SIZE_THRESHOLD: usize = 8000;

/// The number of ways of cutting that are tried.
pub const MAX_SPLIT_ATTEMPTS: usize = 4;

/// One piece of a diff.
#[derive(Debug, Clone)]
pub struct DiffChunk {
    /// The text of the piece.
    pub content: String,
    /// Where the piece comes from, for a reader.
    pub description: String,
}

/// A diff cut into pieces.
#[derive(Debug)]
pub struct SplitDiffResult {
    /// The pieces, in the order of the diff.
    pub chunks: Vec<DiffChunk>,
    /// The length of the diff, in characters.
    pub total_size: usize,
    /// The way of cutting that gave the pieces.
    pub split_method: String,
}

/// Why a diff could not be cut.
#[derive(Debug, Clone, Copy, PartialEq, Eq, Structural)]
pub enum SplitError {
    /// No line of the diff begins a file.
    NoFiles,
    /// No line of the diff begins a hunk.
    NoHunks,
    /// No way of cutting gave chunks that all fit the threshold.
    Unsplittable,
}

/// What a chunk holds.
pub ghost struct ChunkView {
    pub content: Seq<char>,
    pub description: Seq<char>,
}

/// What a cut diff holds.
pub ghost struct SplitView {
    pub chunks: Seq<ChunkView>,
    pub total_size: nat,
    pub split_method: Seq<char>,
}

impl View for DiffChunk {
    type V = ChunkView;

    open spec fn view(&self) -> ChunkView {
        ChunkView { content: self.content@, description: self.description@ }
    }
}

/// What a vector of chunks holds.
pub open spec fn chunk_views(v: Seq<DiffChunk>) -> Seq<ChunkView> {
    Seq::new(v.len(), |i: int| v[i]@)
}

impl View for SplitDiffResult {
    type V = SplitView;

    open spec fn view(&self) -> SplitView {
        SplitView {
            chunks: chunk_views(self.chunks@),
            total_size: self.total_size as nat,
            split_method: self.split_method@,
        }
    }
}

impl SplitError {
    /// The text of the error.
    pub open spec fn text(self) -> Seq<char> {
        match self {
            SplitError::NoFiles => "No files found in diff"@,
            SplitError::NoHunks => "No hunks found in diff"@,
            SplitError::Unsplittable => "Unable to split diff into manageable chunks after "@
                + decimal_of(MAX_SPLIT_ATTEMPTS as nat) + " attempts"@,
        }
    }

    /// The text of the error.
    pub fn message(&self) -> (r: String)
        ensures
            r@ == self.text(),
    {
        match self {
            SplitError::NoFiles => string_of(&chars_of("No files found in diff")),
            SplitError::NoHunks => string_of(&chars_of("No hunks found in diff")),
            SplitError::Unsplittable => {
                let mut out = chars_of("Unable to split diff into manageable chunks after ");
                append(&mut out, &decimal(MAX_SPLIT_ATTEMPTS));
                append(&mut out, &chars_of(" attempts"));
                string_of(&out)
            },
        }
    }
}

/// Whether every chunk of `r` fits the threshold.
pub open spec fn fits(r: SplitView) -> bool {
    forall|i: int| 0 <= i < r.chunks.len() ==> (#[trigger] r.chunks[i]).content.len()
        <= DIFF_SIZE_THRESHOLD
}

/// The contents of `chunks`, one after another.
pub open spec fn joined(chunks: Seq<ChunkView>) -> Seq<char>
    decreases chunks.len(),
{
    if chunks.len() == 0 {
        Seq::empty()
    } else {
        joined(chunks.drop_last()) + chunks.last().content
    }
}

/// Whether `diff` is longer than the threshold.
pub fn needs_splitting(diff: &str) -> (r: bool)
    ensures
        r == (diff@.len() > DIFF_SIZE_THRESHOLD),
{
    diff.unicode_len() > DIFF_SIZE_THRESHOLD
}

fn make_chunk(content: &Vec<char>, description: &Vec<char>) -> (c: DiffChunk)
    ensures
        c@ == (ChunkView { content: content@, description: description@ }),
{
    DiffChunk { content: string_of(content), description: string_of(description) }
}

// ---------------------------------------------------------------------------
// Windows of a fixed number of characters
// ---------------------------------------------------------------------------
/// The index at which the window that begins at `from` ends.
pub open spec fn window_end(len: int, size: int, from: int) -> int {
    if len - from > size {
        from + size
    } else {
        len
    }
}

/// The chunk that holds the characters of `diff` from `from` up to `to`, as the
/// window with the number `number`.
pub open spec fn window_chunk(diff: Seq<char>, from: int, to: int, number: nat) -> ChunkView {
    ChunkView {
        content: diff.subrange(from, to),
        description: "Character chunk "@ + decimal_of(number) + " (chars "@ + decimal_of(
            from as nat,
        ) + "-"@ + decimal_of(to as nat) + ")"@,
    }
}

/// The windows of `size` characters of `diff` from index `from` on, numbered
/// from `number`. Each begins where the one before it ends; the last may be
/// shorter.
pub open spec fn windows_from(diff: Seq<char>, size: int, from: int, number: nat) -> Seq<
    ChunkView,
>
    decreases diff.len() - from,
{
    if size <= 0 || from < 0 || from >= diff.len() {
        Seq::empty()
    } else {
        let to = window_end(diff.len() as int, size, from);
        seq![window_chunk(diff, from, to, number)] + windows_from(diff, size, to, number + 1)
    }
}

/// `diff` cut into windows of `size` characters.
pub open spec fn by_windows(diff: Seq<char>, size: int) -> SplitView {
    SplitView {
        chunks: windows_from(diff, size, 0, 1),
        total_size: diff.len(),
        split_method: "by_characters"@,
    }
}

/// The windows from an index on hold the characters from that index on: none is
/// lost, none comes twice, and the order is kept. No window is longer than the
/// size.
pub proof fn lemma_windows_from(diff: Seq<char>, size: int, from: int, number: nat)
    requires
        size > 0,
        0 <= from <= diff.len(),
    ensures
        joined(windows_from(diff, size, from, number)) == diff.skip(from),
        forall|i: int|
            0 <= i < windows_from(diff, size, from, number).len() ==> 0 < (
            #[trigger] windows_from(diff, size, from, number)[i]).content.len() <= size,
    decreases diff.len() - from,
{
    let ws = windows_from(diff, size, from, number);
    if from >= diff.len() {
        assert(diff.skip(from) =~= Seq::<char>::empty());
    } else {
        let to = window_end(diff.len() as int, size, from);
        let first = window_chunk(diff, from, to, number);
        let rest = windows_from(diff, size, to, number + 1);
        lemma_windows_from(diff, size, to, number + 1);
        lemma_joined_concat(seq![first], rest);
        assert(seq![first].drop_last() =~= Seq::<ChunkView>::empty());
        assert(joined(seq![first].drop_last()) =~= Seq::<char>::empty());
        assert(seq![first].last() == first);
        assert(joined(seq![first]) =~= first.content);
        assert(first.content + diff.skip(to) =~= diff.skip(from));
        assert forall|i: int| 0 <= i < ws.len() implies 0 < (#[trigger] ws[i]).content.len()
            <= size by {
            if i > 0 {
                assert(ws[i] == rest[i - 1]);
            }
        }
    }
}

/// Joining two runs of chunks one after the other joins their contents.
pub proof fn lemma_joined_concat(a: Seq<ChunkView>, b: Seq<ChunkView>)
    ensures
        joined(a + b) == joined(a) + joined(b),
    decreases b.len(),
{
    if b.len() == 0 {
        assert(a + b =~= a);
        assert(joined(a) + joined(b) =~= joined(a));
    } else {
        lemma_joined_concat(a, b.drop_last());
        assert((a + b).drop_last() =~= a + b.drop_last());
        assert((a + b).last() == b.last());
        assert(joined(a + b) =~= joined(a) + joined(b));
    }
}

/// Windows reproduce the diff: the contents of the windows, one after another,
/// are the diff, and no window is longer than the size.
pub proof fn lemma_windows_reproduce(diff: Seq<char>, size: int)
    requires
        size > 0,
    ensures
        joined(by_windows(diff, size).chunks) == diff,
        forall|i: int|
            0 <= i < by_windows(diff, size).chunks.len() ==> (#[trigger] by_windows(
                diff,
                size,
            ).chunks[i]).content.len() <= size,
{
    lemma_windows_from(diff, size, 0, 1);
    assert(diff.skip(0) =~= diff);
}

fn window_description(number: usize, from: usize, to: usize) -> (d: Vec<char>)
    ensures
        d@ == "Character chunk "@ + decimal_of(number as nat) + " (chars "@ + decimal_of(
            from as nat,
        ) + "-"@ + decimal_of(to as nat) + ")"@,
{
    let mut d = chars_of("Character chunk ");
    append(&mut d, &decimal(number));
    append(&mut d, &chars_of(" (chars "));
    append(&mut d, &decimal(from));
    append(&mut d, &chars_of("-"));
    append(&mut d, &decimal(to));
    append(&mut d, &chars_of(")"));
    d
}

fn windows(text: &Vec<char>, chunk_size: usize) -> (r: SplitDiffResult)
    requires
        chunk_size > 0,
    ensures
        r@ == by_windows(text@, chunk_size as int),
{
    let n = text.len();
    let mut chunks: Vec<DiffChunk> = Vec::new();
    let mut start: usize = 0;
    let mut number: usize = 1;
    while start < n
        invariant
            n == text.len(),
            chunk_size > 0,
            start <= n,
            number <= start + 1,
            windows_from(text@, chunk_size as int, 0, 1) == chunk_views(chunks@) + windows_from(
                text@,
                chunk_size as int,
                start as int,
                number as nat,
            ),
        decreases n - start,
    {
        let end = if n - start > chunk_size {
            start + chunk_size
        } else {
            n
        };
        let content = slice_of(text, start, end);
        let description = window_description(number, start, end);
        let chunk = make_chunk(&content, &description);
        let ghost before = chunk_views(chunks@);
        let ghost rest = windows_from(text@, chunk_size as int, end as int, (number + 1) as nat);
        assert(windows_from(text@, chunk_size as int, start as int, number as nat) == seq![
            chunk@,
        ] + rest);
        chunks.push(chunk);
        assert(chunk_views(chunks@) =~= before.push(chunk@));
        assert(before + (seq![chunk@] + rest) =~= before.push(chunk@) + rest);
        if end < n {
            number += 1;
        } else {
            assert(rest =~= Seq::<ChunkView>::empty());
            assert(windows_from(text@, chunk_size as int, end as int, number as nat) =~= rest);
        }
        start = end;
    }
    assert(windows_from(text@, chunk_size as int, start as int, number as nat) =~= Seq::<
        ChunkView,
    >::empty());
    assert(chunk_views(chunks@) =~= windows_from(text@, chunk_size as int, 0, 1));
    SplitDiffResult { chunks, total_size: n, split_method: string_of(&chars_of("by_characters")) }
}

/// `diff` cut into windows of `chunk_size` characters: each window begins where
/// the one before it ends, and the last may be shorter.
pub fn split_by_character_chunks(diff: &str, chunk_size: usize) -> (r: Result<
    SplitDiffResult,
    SplitError,
>)
    requires
        chunk_size > 0,
    ensures
        r matches Ok(s) && s@ == by_windows(diff@, chunk_size as int),
{
    let text = chars_of(diff);
    Ok(windows(&text, chunk_size))
}

// ---------------------------------------------------------------------------
// The name of a file in a file header
// ---------------------------------------------------------------------------
/// The index of the first white space of `s` at or after `from`, or the length
/// of `s` where there is none.
pub open spec fn word_end(s: Seq<char>, from: int) -> int
    decreases s.len() - from,
{
    if from < 0 || from >= s.len() {
        s.len() as int
    } else if is_whitespace(s[from]) {
        from
    } else {
        word_end(s, from + 1)
    }
}

/// Whether `word` looks like a path: it holds a slash or a dot.
pub open spec fn is_pathlike(word: Seq<char>) -> bool {
    exists|k: int| 0 <= k < word.len() && (#[trigger] word[k] == '/' || word[k] == '.')
}

/// The first word of `s` at or after `from` that looks like a path. A word is
/// a longest run of characters that are not white space.
pub open spec fn pathlike_word(s: Seq<char>, from: int) -> Option<Seq<char>>
    decreases s.len() - from,
{
    if from < 0 || from >= s.len() {
        None
    } else if is_whitespace(s[from]) {
        pathlike_word(s, from + 1)
    } else {
        let e = word_end(s, from);
        if is_pathlike(s.subrange(from, e)) {
            Some(s.subrange(from, e))
        } else if from < e <= s.len() {
            pathlike_word(s, e)
        } else {
            None
        }
    }
}

/// The name of the file that the header line `line` speaks of: what stands
/// between the first `a/` and the first ` b/` behind it. Where the line holds
/// no such pair, it is the first word of the line that looks like a path, and
/// `unknown_file` where no word does.
pub open spec fn file_name_of(line: Seq<char>) -> Seq<char> {
    match named_between(line) {
        Some(name) => name,
        None => match pathlike_word(line, 0) {
            Some(word) => word,
            None => "unknown_file"@,
        },
    }
}

/// What stands in `line` between the first `a/` and the first ` b/` behind it.
pub open spec fn named_between(line: Seq<char>) -> Option<Seq<char>> {
    match find_from(line, "a/"@, 0) {
        Some(start) => match find_from(line, " b/"@, start) {
            Some(end) => Some(line.subrange(start + 2, end)),
            None => None,
        },
        None => None,
    }
}

proof fn lemma_word_end(s: Seq<char>, from: int, to: int)
    requires
        0 <= from <= to <= s.len(),
        forall|k: int| from <= k < to ==> !is_whitespace(#[trigger] s[k]),
        to < s.len() ==> is_whitespace(s[to]),
    ensures
        word_end(s, from) == to,
    decreases to - from,
{
    if from < to {
        lemma_word_end(s, from + 1, to);
    }
}

proof fn lemma_pathlike_push(word: Seq<char>, c: char)
    ensures
        is_pathlike(word.push(c)) == (is_pathlike(word) || c == '/' || c == '.'),
{
    let longer = word.push(c);
    if is_pathlike(word) {
        let k = choose|k: int| 0 <= k < word.len() && (#[trigger] word[k] == '/' || word[k] == '.');
        assert(longer[k] == word[k]);
    }
    if c == '/' || c == '.' {
        assert(longer[word.len() as int] == c);
    }
    if is_pathlike(longer) {
        let k = choose|k: int|
            0 <= k < longer.len() && (#[trigger] longer[k] == '/' || longer[k] == '.');
        if k < word.len() {
            assert(word[k] == longer[k]);
        }
    }
}

fn first_pathlike_word(line: &Vec<char>) -> (r: Option<Vec<char>>)
    ensures
        match r {
            Some(w) => pathlike_word(line@, 0) == Some(w@),
            None => pathlike_word(line@, 0) is None,
        },
{
    let n = line.len();
    let mut i: usize = 0;
    while i < n
        invariant
            i <= n,
            n == line.len(),
            pathlike_word(line@, 0) == pathlike_word(line@, i as int),
        decreases n - i,
    {
        if is_space(line[i]) {
            i += 1;
        } else {
            let mut e: usize = i;
            let mut like = false;
            while e < n && !is_space(line[e])
                invariant
                    i <= e <= n,
                    n == line.len(),
                    forall|k: int| i <= k < e ==> !is_whitespace(#[trigger] line@[k]),
                    like == is_pathlike(line@.subrange(i as int, e as int)),
                decreases n - e,
            {
                proof {
                    lemma_pathlike_push(line@.subrange(i as int, e as int), line@[e as int]);
                    assert(line@.subrange(i as int, e + 1) =~= line@.subrange(
                        i as int,
                        e as int,
                    ).push(line@[e as int]));
                }
                if line[e] == '/' || line[e] == '.' {
                    like = true;
                }
                e += 1;
            }
            proof {
                lemma_word_end(line@, i as int, e as int);
            }
            if like {
                return Some(slice_of(line, i, e));
            }
            i = e;
        }
    }
    None
}

fn file_name(line: &Vec<char>) -> (r: Vec<char>)
    ensures
        r@ == file_name_of(line@),
{
    let a = chars_of("a/");
    let b = chars_of(" b/");
    if let Some(start) = find_in(line, &a, 0) {
        if let Some(end) = find_in(line, &b, start) {
            proof {
                reveal_strlit("a/");
                reveal_strlit(" b/");
                lemma_find_from(line@, a@, 0);
                lemma_find_from(line@, b@, start as int);
                let head = line@.subrange(start as int, start + 2);
                assert(head[0] == 'a' && head[1] == '/');
                let sep = line@.subrange(end as int, end + 3);
                assert(sep[0] == ' ');
                assert(line@[start as int] == 'a' && line@[start + 1] == '/');
                assert(line@[end as int] == ' ');
            }
            return slice_of(line, start + 2, end);
        }
    }
    match first_pathlike_word(line) {
        Some(word) => word,
        None => chars_of("unknown_file"),
    }
}

/// The name of the file that the header line `line` speaks of.
pub fn extract_file_name(line: &str) -> (r: String)
    ensures
        r@ == file_name_of(line@),
{
    let text = chars_of(line);
    string_of(&file_name(&text))
}

// ---------------------------------------------------------------------------
// Sections of lines
// ---------------------------------------------------------------------------
/// Whether `line` begins the part of a diff that speaks of one file.
pub open spec fn is_file_header(line: Seq<char>) -> bool {
    starts_with(line, "diff --git"@)
}

/// Whether `line` belongs to the header of a file: it names the file pair, the
/// index, or one of the two paths.
pub open spec fn is_header_line(line: Seq<char>) -> bool {
    starts_with(line, "diff --git"@) || starts_with(line, "index "@) || starts_with(
        line,
        "--- "@,
    ) || starts_with(line, "+++ "@)
}

/// Whether `line` begins a hunk.
pub open spec fn is_hunk_start(line: Seq<char>) -> bool {
    !is_header_line(line) && starts_with(line, "@@"@)
}

/// The two kinds of section that a diff is cut into.
pub ghost enum Section {
    File,
    Hunk,
}

/// Whether `line` opens a section of the kind `kind`.
pub open spec fn opens(kind: Section, line: Seq<char>) -> bool {
    match kind {
        Section::File => is_file_header(line),
        Section::Hunk => is_hunk_start(line),
    }
}

/// The indices, among the first `n` lines, of the lines that open a section of
/// the kind `kind`, in rising order.
pub open spec fn starts_upto(lines: Seq<Seq<char>>, kind: Section, n: int) -> Seq<int>
    decreases n,
{
    if n <= 0 {
        Seq::empty()
    } else if opens(kind, lines[n - 1]) {
        starts_upto(lines, kind, n - 1).push(n - 1)
    } else {
        starts_upto(lines, kind, n - 1)
    }
}

/// The indices of the lines that open a section of the kind `kind`.
pub open spec fn section_starts(lines: Seq<Seq<char>>, kind: Section) -> Seq<int> {
    starts_upto(lines, kind, lines.len() as int)
}

/// The index at which the section `j` ends: where the next one starts, or `n`
/// for the last.
pub open spec fn section_end(starts: Seq<int>, j: int, n: int) -> int {
    if j + 1 < starts.len() {
        starts[j + 1]
    } else {
        n
    }
}

/// The starts among the first `n` lines are indices below `n` of lines that
/// open a section, they rise, and no line that opens a section is left out.
pub proof fn lemma_starts_upto(lines: Seq<Seq<char>>, kind: Section, n: int)
    requires
        0 <= n <= lines.len(),
    ensures
        starts_upto(lines, kind, n).len() <= n,
        forall|j: int|
            0 <= j < starts_upto(lines, kind, n).len() ==> 0 <= (#[trigger] starts_upto(
                lines,
                kind,
                n,
            )[j]) < n && opens(kind, lines[starts_upto(lines, kind, n)[j]]),
        forall|j: int, k: int|
            0 <= j < k < starts_upto(lines, kind, n).len() ==> (#[trigger] starts_upto(
                lines,
                kind,
                n,
            )[j]) < (#[trigger] starts_upto(lines, kind, n)[k]),
        forall|i: int|
            0 <= i < n && opens(kind, #[trigger] lines[i]) ==> starts_upto(
                lines,
                kind,
                n,
            ).contains(i),
    decreases n,
{
    if n > 0 {
        lemma_starts_upto(lines, kind, n - 1);
        let before = starts_upto(lines, kind, n - 1);
        let now = starts_upto(lines, kind, n);
        assert forall|i: int| 0 <= i < n && opens(kind, #[trigger] lines[i]) implies now.contains(
            i,
        ) by {
            if i < n - 1 {
                assert(before.contains(i));
                let j = choose|j: int| 0 <= j < before.len() && before[j] == i;
                assert(now[j] == i);
            } else {
                assert(now[now.len() - 1] == i);
            }
        }
    }
}

/// The text of the lines from `from` up to `to`, each followed by a line feed.
pub open spec fn section_text(lines: Seq<Seq<char>>, from: int, to: int) -> Seq<char> {
    unlines(lines.subrange(from, to))
}

proof fn lemma_section_text_step(lines: Seq<Seq<char>>, from: int, to: int)
    requires
        0 <= from <= to < lines.len(),
    ensures
        section_text(lines, from, to + 1) == section_text(lines, from, to) + lines[to] + seq![
            '\n',
        ],
        section_text(lines, from, to + 1).len() > 0,
        section_text(lines, to, to) == Seq::<char>::empty(),
{
    let longer = lines.subrange(from, to + 1);
    assert(longer.drop_last() =~= lines.subrange(from, to));
    assert(longer.last() == lines[to]);
    assert(lines.subrange(to, to) =~= Seq::<Seq<char>>::empty());
}

// ---------------------------------------------------------------------------
// By file
// ---------------------------------------------------------------------------
/// The chunk for the file whose lines run from `from` up to `to`: their text
/// without the white space at its two ends, under the name that the first of
/// them gives.
pub open spec fn file_chunk(lines: Seq<Seq<char>>, from: int, to: int) -> ChunkView {
    ChunkView {
        content: trim(section_text(lines, from, to)),
        description: "File: "@ + file_name_of(lines[from]),
    }
}

/// One chunk for each file of the diff whose lines are `lines`: a file runs
/// from its header up to the next header, or to the end. Lines before the
/// first header belong to no file.
pub open spec fn file_chunks(lines: Seq<Seq<char>>) -> Seq<ChunkView> {
    let starts = section_starts(lines, Section::File);
    Seq::new(
        starts.len(),
        |j: int| file_chunk(lines, starts[j], section_end(starts, j, lines.len() as int)),
    )
}

/// `diff` cut by file, or the error `NoFiles` where no line begins a file.
pub open spec fn by_files(diff: Seq<char>) -> Result<SplitView, SplitError> {
    if section_starts(lines_of(diff), Section::File).len() == 0 {
        Err(SplitError::NoFiles)
    } else {
        Ok(
            SplitView {
                chunks: file_chunks(lines_of(diff)),
                total_size: diff.len(),
                split_method: "by_files"@,
            },
        )
    }
}

/// What a result of cutting holds.
pub open spec fn outcome(r: Result<SplitDiffResult, SplitError>) -> Result<SplitView, SplitError> {
    match r {
        Ok(s) => Ok(s@),
        Err(e) => Err(e),
    }
}

fn file_description(name: &Vec<char>) -> (d: Vec<char>)
    ensures
        d@ == "File: "@ + name@,
{
    let mut d = chars_of("File: ");
    append(&mut d, name);
    d
}

fn files(text: &Vec<char>) -> (r: Result<SplitDiffResult, SplitError>)
    ensures
        outcome(r) == by_files(text@),
{
    let lines = split_lines(text);
    let ghost all = texts(lines@);
    let n = lines.len();
    let mut chunks: Vec<DiffChunk> = Vec::new();
    let mut current: Vec<char> = Vec::new();
    let mut name: Vec<char> = Vec::new();
    let mut in_file = false;
    let mut i: usize = 0;
    while i < n
        invariant
            i <= n,
            n == lines.len(),
            all == texts(lines@),
            all.len() == n,
            in_file == (starts_upto(all, Section::File, i as int).len() > 0),
            !in_file ==> chunks.len() == 0,
            in_file ==> chunks.len() + 1 == starts_upto(all, Section::File, i as int).len(),
            forall|j: int|
                0 <= j < chunks.len() ==> (#[trigger] chunks@[j])@ == file_chunk(
                    all,
                    starts_upto(all, Section::File, i as int)[j],
                    starts_upto(all, Section::File, i as int)[j + 1],
                ),
            in_file ==> current@ == section_text(
                all,
                starts_upto(all, Section::File, i as int).last(),
                i as int,
            ) && name@ == file_name_of(all[starts_upto(all, Section::File, i as int).last()]),
        decreases n - i,
    {
        let ghost before = starts_upto(all, Section::File, i as int);
        let ghost after = starts_upto(all, Section::File, i + 1);
        proof {
            lemma_starts_upto(all, Section::File, i as int);
            assert(all[i as int] == lines@[i as int]@);
        }
        let line = &lines[i];
        if begins_with(line, "diff --git") {
            assert(after == before.push(i as int));
            if in_file && current.len() > 0 {
                let content = trimmed(&current);
                let description = file_description(&name);
                let chunk = make_chunk(&content, &description);
                chunks.push(chunk);
                assert(chunk@ == file_chunk(all, before.last(), i as int));
            } else {
                proof {
                    if in_file {
                        lemma_section_text_step(all, before.last(), i - 1);
                    }
                }
            }
            current = Vec::new();
            name = file_name(line);
            in_file = true;
            proof {
                lemma_section_text_step(all, i as int, i as int);
            }
        } else {
            assert(after == before);
        }
        if in_file {
            proof {
                lemma_starts_upto(all, Section::File, i + 1);
                lemma_section_text_step(all, after.last(), i as int);
            }
            append(&mut current, line);
            current.push('\n');
            assert(current@ =~= section_text(all, after.last(), i + 1));
        }
        i += 1;
    }
    let ghost starts = starts_upto(all, Section::File, n as int);
    proof {
        lemma_starts_upto(all, Section::File, n as int);
    }
    if in_file && current.len() > 0 {
        let content = trimmed(&current);
        let description = file_description(&name);
        let chunk = make_chunk(&content, &description);
        chunks.push(chunk);
    } else {
        proof {
            if in_file {
                lemma_section_text_step(all, starts.last(), n - 1);
            }
        }
    }
    if chunks.len() == 0 {
        return Err(SplitError::NoFiles);
    }
    assert(chunk_views(chunks@) =~= file_chunks(all));
    Ok(SplitDiffResult { chunks, total_size: text.len(), split_method: string_of(&chars_of("by_files")) })
}

/// `diff` cut by file: one chunk for each file, from its header up to the next
/// header or the end, trimmed, under the name of the file.
pub fn split_by_files(diff: &str) -> (r: Result<SplitDiffResult, SplitError>)
    ensures
        outcome(r) == by_files(diff@),
{
    let text = chars_of(diff);
    files(&text)
}

// ---------------------------------------------------------------------------
// By hunk
// ---------------------------------------------------------------------------
/// The index at which the file begins that the line before `n` belongs to:
/// that of the last file header among the first `n` lines, or zero where none
/// of them is one.
pub open spec fn file_start(lines: Seq<Seq<char>>, n: int) -> int
    decreases n,
{
    if n <= 0 {
        0
    } else if is_file_header(lines[n - 1]) {
        n - 1
    } else {
        file_start(lines, n - 1)
    }
}

/// The header lines among the lines from `from` up to `to`, each followed by a
/// line feed.
pub open spec fn header_text(lines: Seq<Seq<char>>, from: int, to: int) -> Seq<char>
    decreases to - from,
{
    if to <= from {
        Seq::empty()
    } else if is_header_line(lines[to - 1]) {
        header_text(lines, from, to - 1) + lines[to - 1] + seq!['\n']
    } else {
        header_text(lines, from, to - 1)
    }
}

/// The lines from `from` up to `to` that are no header lines, each followed by
/// a line feed.
pub open spec fn body_text(lines: Seq<Seq<char>>, from: int, to: int) -> Seq<char>
    decreases to - from,
{
    if to <= from {
        Seq::empty()
    } else if is_header_line(lines[to - 1]) {
        body_text(lines, from, to - 1)
    } else {
        body_text(lines, from, to - 1) + lines[to - 1] + seq!['\n']
    }
}

/// The header of the file that the hunk which starts at `from` belongs to, as
/// far as it stands before the hunk: the header lines from the last file header
/// before the hunk, or from the first line where there is none, up to the hunk.
pub open spec fn own_header(lines: Seq<Seq<char>>, from: int) -> Seq<char> {
    header_text(lines, file_start(lines, from), from)
}

/// The chunk with the number `number` for the hunk whose lines run from `from`
/// up to `to`: the header of its own file, then the body of its lines without
/// the white space at its two ends. Header lines of a file that follows are no
/// part of it.
pub open spec fn hunk_chunk(lines: Seq<Seq<char>>, from: int, to: int, number: nat) -> ChunkView {
    ChunkView {
        content: own_header(lines, from) + trim(body_text(lines, from, to)),
        description: "Hunk "@ + decimal_of(number),
    }
}

/// The chunk for the lines before the first hunk, which starts at `first`:
/// their header lines, then the body of the others without the white space at
/// its two ends. Its number is zero.
pub open spec fn lead_chunk(lines: Seq<Seq<char>>, first: int) -> ChunkView {
    ChunkView {
        content: header_text(lines, 0, first) + trim(body_text(lines, 0, first)),
        description: "Hunk "@ + decimal_of(0),
    }
}

/// The chunk for the lines before the first hunk, where any of them is no
/// header line.
pub open spec fn lead_chunks(lines: Seq<Seq<char>>, first: int) -> Seq<ChunkView> {
    if body_text(lines, 0, first).len() > 0 {
        seq![lead_chunk(lines, first)]
    } else {
        Seq::empty()
    }
}

/// The chunk for what stands before the first of `starts`, and those of the
/// first `k` hunks, each of which ends where the next starts.
pub open spec fn closed_hunks(lines: Seq<Seq<char>>, starts: Seq<int>, k: int) -> Seq<ChunkView> {
    lead_chunks(lines, starts[0]) + Seq::new(
        k as nat,
        |j: int| hunk_chunk(lines, starts[j], starts[j + 1], (j + 1) as nat),
    )
}

/// The chunks of the diff whose lines are `lines`, which holds a hunk, cut by
/// hunk: one for what stands before the first hunk, if any of it is no header
/// line, and one for each hunk, which runs from its start up to the next or to
/// the end. The hunks are numbered from one, across the whole diff.
pub open spec fn hunk_chunks(lines: Seq<Seq<char>>) -> Seq<ChunkView> {
    let starts = section_starts(lines, Section::Hunk);
    lead_chunks(lines, starts[0]) + Seq::new(
        starts.len(),
        |j: int|
            hunk_chunk(
                lines,
                starts[j],
                section_end(starts, j, lines.len() as int),
                (j + 1) as nat,
            ),
    )
}

/// `diff` cut by hunk, or the error `NoHunks` where no line begins a hunk.
pub open spec fn by_hunks(diff: Seq<char>) -> Result<SplitView, SplitError> {
    if section_starts(lines_of(diff), Section::Hunk).len() == 0 {
        Err(SplitError::NoHunks)
    } else {
        Ok(
            SplitView {
                chunks: hunk_chunks(lines_of(diff)),
                total_size: diff.len(),
                split_method: "by_hunks"@,
            },
        )
    }
}

proof fn lemma_body_text_grows(lines: Seq<Seq<char>>, from: int, to: int)
    requires
        0 <= from < to <= lines.len(),
        !is_header_line(lines[from]),
    ensures
        body_text(lines, from, to).len() > 0,
    decreases to - from,
{
    if to > from + 1 {
        lemma_body_text_grows(lines, from, to - 1);
    }
}

/// A file begins at or before the line it is asked for, at a file header
/// wherever one stands before that line.
pub proof fn lemma_file_start(lines: Seq<Seq<char>>, n: int)
    requires
        0 <= n <= lines.len(),
    ensures
        0 <= file_start(lines, n) <= n,
        n > 0 ==> file_start(lines, n) < n,
        forall|k: int| file_start(lines, n) < k < n ==> !is_file_header(#[trigger] lines[k]),
        file_start(lines, n) > 0 ==> is_file_header(lines[file_start(lines, n)]),
    decreases n,
{
    if n > 0 && !is_file_header(lines[n - 1]) {
        lemma_file_start(lines, n - 1);
    }
}

fn hunk_description(number: usize) -> (d: Vec<char>)
    ensures
        d@ == "Hunk "@ + decimal_of(number as nat),
{
    let mut d = chars_of("Hunk ");
    append(&mut d, &decimal(number));
    d
}

fn make_hunk(header: &Vec<char>, body: &Vec<char>, number: usize) -> (c: DiffChunk)
    ensures
        c@ == (ChunkView {
            content: header@ + trim(body@),
            description: "Hunk "@ + decimal_of(number as nat),
        }),
{
    let mut content = header.clone();
    append(&mut content, &trimmed(body));
    make_chunk(&content, &hunk_description(number))
}

fn hunks(text: &Vec<char>) -> (r: Result<SplitDiffResult, SplitError>)
    ensures
        outcome(r) == by_hunks(text@),
{
    let lines = split_lines(text);
    let ghost all = texts(lines@);
    let n = lines.len();
    let mut chunks: Vec<DiffChunk> = Vec::new();
    // The lines of the chunk that is open, without header lines.
    let mut current: Vec<char> = Vec::new();
    // The header lines that go before the chunk that is open.
    let mut prefix: Vec<char> = Vec::new();
    // The header lines of the file that is being read.
    let mut header: Vec<char> = Vec::new();
    let mut hunk_count: usize = 0;
    let mut i: usize = 0;
    while i < n
        invariant
            i <= n,
            n == lines.len(),
            all == texts(lines@),
            all.len() == n,
            header@ == header_text(all, file_start(all, i as int), i as int),
            hunk_count == starts_upto(all, Section::Hunk, i as int).len(),
            hunk_count <= i,
            hunk_count == 0 ==> chunks.len() == 0 && current@ == body_text(all, 0, i as int)
                && prefix@ == header_text(all, 0, i as int),
            hunk_count > 0 ==> chunk_views(chunks@) == closed_hunks(
                all,
                starts_upto(all, Section::Hunk, i as int),
                hunk_count - 1,
            ) && current@ == body_text(
                all,
                starts_upto(all, Section::Hunk, i as int).last(),
                i as int,
            ) && prefix@ == own_header(all, starts_upto(all, Section::Hunk, i as int).last()),
        decreases n - i,
    {
        let ghost before = starts_upto(all, Section::Hunk, i as int);
        let ghost after = starts_upto(all, Section::Hunk, i + 1);
        proof {
            lemma_starts_upto(all, Section::Hunk, i as int);
            lemma_starts_upto(all, Section::Hunk, i + 1);
            lemma_file_start(all, i as int);
            assert(all[i as int] == lines@[i as int]@);
        }
        let line = &lines[i];
        let opens_file = begins_with(line, "diff --git");
        if opens_file || begins_with(line, "index ") || begins_with(line, "--- ") || begins_with(
            line,
            "+++ ",
        ) {
            assert(after == before);
            if opens_file {
                header = Vec::new();
                assert(header_text(all, i as int, i as int) =~= Seq::<char>::empty());
            }
            append(&mut header, line);
            header.push('\n');
            assert(header@ =~= header_text(all, file_start(all, i + 1), i + 1));
            if hunk_count == 0 {
                append(&mut prefix, line);
                prefix.push('\n');
                assert(prefix@ =~= header_text(all, 0, i + 1));
            }
        } else if begins_with(line, "@@") {
            assert(after == before.push(i as int));
            let ghost done = chunk_views(chunks@);
            if current.len() > 0 {
                let chunk = make_hunk(&prefix, &current, hunk_count);
                chunks.push(chunk);
                proof {
                    assert(chunk_views(chunks@) =~= done.push(chunk@));
                    if hunk_count == 0 {
                        assert(chunk@ == lead_chunk(all, i as int));
                        assert(closed_hunks(all, after, 0) =~= seq![chunk@]);
                    } else {
                        assert(chunk@ == hunk_chunk(
                            all,
                            before.last(),
                            i as int,
                            hunk_count as nat,
                        ));
                        assert(closed_hunks(all, after, hunk_count as int) =~= closed_hunks(
                            all,
                            before,
                            hunk_count - 1,
                        ).push(chunk@));
                    }
                }
            } else {
                proof {
                    if hunk_count > 0 {
                        lemma_body_text_grows(all, before.last(), i as int);
                    }
                    assert(closed_hunks(all, after, 0) =~= Seq::<ChunkView>::empty());
                }
            }
            hunk_count += 1;
            prefix = header.clone();
            current = Vec::new();
            append(&mut current, line);
            current.push('\n');
            proof {
                assert(body_text(all, i as int, i as int) =~= Seq::<char>::empty());
                assert(current@ =~= body_text(all, i as int, i + 1));
                assert(prefix@ == own_header(all, i as int));
            }
        } else {
            assert(after == before);
            append(&mut current, line);
            current.push('\n');
            proof {
                if hunk_count == 0 {
                    assert(current@ =~= body_text(all, 0, i + 1));
                } else {
                    assert(current@ =~= body_text(all, before.last(), i + 1));
                }
            }
        }
        i += 1;
    }
    if hunk_count == 0 {
        return Err(SplitError::NoHunks);
    }
    let ghost starts = starts_upto(all, Section::Hunk, n as int);
    let ghost done = chunk_views(chunks@);
    proof {
        lemma_starts_upto(all, Section::Hunk, n as int);
    }
    if current.len() > 0 {
        let chunk = make_hunk(&prefix, &current, hunk_count);
        chunks.push(chunk);
        proof {
            assert(chunk_views(chunks@) =~= done.push(chunk@));
        }
    } else {
        proof {
            lemma_body_text_grows(all, starts.last(), n as int);
        }
    }
    assert(chunk_views(chunks@) =~= hunk_chunks(all));
    Ok(SplitDiffResult { chunks, total_size: text.len(), split_method: string_of(&chars_of("by_hunks")) })
}

/// `diff` cut by hunk: each chunk holds the header lines of the file that its
/// hunk belongs to, as they stand before the hunk, and then the lines of the
/// hunk, trimmed. What stands before the first hunk makes a chunk of its own,
/// with the number zero. A diff without a hunk is not cut.
pub fn split_by_hunks(diff: &str) -> (r: Result<SplitDiffResult, SplitError>)
    ensures
        outcome(r) == by_hunks(diff@),
{
    let text = chars_of(diff);
    hunks(&text)
}

// ---------------------------------------------------------------------------
// What the sections hold
// ---------------------------------------------------------------------------
/// The lines of the first `k` sections, one section after another.
pub open spec fn section_lines(lines: Seq<Seq<char>>, starts: Seq<int>, k: int) -> Seq<Seq<char>>
    decreases k,
{
    if k <= 0 {
        Seq::empty()
    } else {
        section_lines(lines, starts, k - 1) + lines.subrange(
            starts[k - 1],
            section_end(starts, k - 1, lines.len() as int),
        )
    }
}

/// The bodies of the first `k` hunks, one after another.
pub open spec fn hunk_bodies(lines: Seq<Seq<char>>, starts: Seq<int>, k: int) -> Seq<char>
    decreases k,
{
    if k <= 0 {
        Seq::empty()
    } else {
        hunk_bodies(lines, starts, k - 1) + body_text(
            lines,
            starts[k - 1],
            section_end(starts, k - 1, lines.len() as int),
        )
    }
}

/// Every line from the first one that opens a section appears in exactly one
/// section, in its place: the sections, one after another, are those lines.
/// The lines before it appear in none.
pub proof fn lemma_sections_cover(lines: Seq<Seq<char>>, kind: Section)
    requires
        section_starts(lines, kind).len() > 0,
    ensures
        section_lines(lines, section_starts(lines, kind), section_starts(lines, kind).len() as int)
            == lines.skip(section_starts(lines, kind)[0]),
{
    let starts = section_starts(lines, kind);
    lemma_sections_upto(lines, kind, starts.len() as int);
    assert(lines.subrange(starts[0], lines.len() as int) =~= lines.skip(starts[0]));
}

proof fn lemma_sections_upto(lines: Seq<Seq<char>>, kind: Section, k: int)
    requires
        1 <= k <= section_starts(lines, kind).len(),
    ensures
        section_lines(lines, section_starts(lines, kind), k) == lines.subrange(
            section_starts(lines, kind)[0],
            section_end(section_starts(lines, kind), k - 1, lines.len() as int),
        ),
    decreases k,
{
    let starts = section_starts(lines, kind);
    let n = lines.len() as int;
    lemma_starts_upto(lines, kind, n);
    if k == 1 {
        assert(section_lines(lines, starts, 0) =~= Seq::<Seq<char>>::empty());
        assert(section_lines(lines, starts, 1) =~= lines.subrange(
            starts[0],
            section_end(starts, 0, n),
        ));
    } else {
        lemma_sections_upto(lines, kind, k - 1);
        assert(section_end(starts, k - 2, n) == starts[k - 1]);
        assert(lines.subrange(starts[0], starts[k - 1]) + lines.subrange(
            starts[k - 1],
            section_end(starts, k - 1, n),
        ) =~= lines.subrange(starts[0], section_end(starts, k - 1, n)));
    }
}

/// The body of a run of lines is the body of its first part followed by the
/// body of the rest.
pub proof fn lemma_body_text_split(lines: Seq<Seq<char>>, from: int, mid: int, to: int)
    requires
        from <= mid <= to,
    ensures
        body_text(lines, from, to) == body_text(lines, from, mid) + body_text(lines, mid, to),
    decreases to - mid,
{
    if to == mid {
        assert(body_text(lines, from, mid) + body_text(lines, mid, to) =~= body_text(
            lines,
            from,
            to,
        ));
    } else {
        lemma_body_text_split(lines, from, mid, to - 1);
        if is_header_line(lines[to - 1]) {
        } else {
            assert(body_text(lines, from, to) =~= body_text(lines, from, mid) + body_text(
                lines,
                mid,
                to,
            ));
        }
    }
}

/// Every line that is no header line appears in the body of exactly one chunk
/// cut by hunk, in its place: the body of what stands before the first hunk
/// and the bodies of the hunks, one after another, are the body of the whole.
pub proof fn lemma_hunk_bodies_cover(lines: Seq<Seq<char>>)
    requires
        section_starts(lines, Section::Hunk).len() > 0,
    ensures
        body_text(lines, 0, section_starts(lines, Section::Hunk)[0]) + hunk_bodies(
            lines,
            section_starts(lines, Section::Hunk),
            section_starts(lines, Section::Hunk).len() as int,
        ) == body_text(lines, 0, lines.len() as int),
{
    let starts = section_starts(lines, Section::Hunk);
    lemma_hunk_bodies_upto(lines, starts.len() as int);
}

proof fn lemma_hunk_bodies_upto(lines: Seq<Seq<char>>, k: int)
    requires
        1 <= k <= section_starts(lines, Section::Hunk).len(),
    ensures
        body_text(lines, 0, section_starts(lines, Section::Hunk)[0]) + hunk_bodies(
            lines,
            section_starts(lines, Section::Hunk),
            k,
        ) == body_text(
            lines,
            0,
            section_end(section_starts(lines, Section::Hunk), k - 1, lines.len() as int),
        ),
    decreases k,
{
    let starts = section_starts(lines, Section::Hunk);
    let n = lines.len() as int;
    let lead = body_text(lines, 0, starts[0]);
    let end = section_end(starts, k - 1, n);
    lemma_starts_upto(lines, Section::Hunk, n);
    lemma_body_text_split(lines, 0, starts[k - 1], end);
    if k == 1 {
        assert(hunk_bodies(lines, starts, 0) =~= Seq::<char>::empty());
        assert(lead + hunk_bodies(lines, starts, 1) =~= body_text(lines, 0, end));
    } else {
        lemma_hunk_bodies_upto(lines, k - 1);
        assert(section_end(starts, k - 2, n) == starts[k - 1]);
        assert(lead + hunk_bodies(lines, starts, k) =~= (lead + hunk_bodies(lines, starts, k - 1))
            + body_text(lines, starts[k - 1], end));
    }
}

// ---------------------------------------------------------------------------
// The four ways in turn
// ---------------------------------------------------------------------------
/// The diff as one chunk.
pub open spec fn whole(diff: Seq<char>) -> SplitView {
    SplitView {
        chunks: seq![
            ChunkView { content: diff, description: "Complete diff (no splitting needed)"@ },
        ],
        total_size: diff.len(),
        split_method: "none"@,
    }
}

/// `r` where it is a result whose chunks all fit the threshold.
pub open spec fn accepted(r: Result<SplitView, SplitError>) -> Option<SplitView> {
    match r {
        Ok(s) => if fits(s) {
            Some(s)
        } else {
            None
        },
        Err(_) => None,
    }
}

/// What splitting gives for `diff`. A diff that is no longer than the
/// threshold stays whole. A longer one is cut by file, by hunk, into windows
/// of half the threshold, or into windows of a quarter of it: the first of
/// these whose chunks all fit the threshold gives the result, and where none
/// does the diff cannot be split.
pub open spec fn split_of(diff: Seq<char>) -> Result<SplitView, SplitError> {
    if diff.len() <= DIFF_SIZE_THRESHOLD {
        Ok(whole(diff))
    } else if accepted(by_files(diff)) is Some {
        Ok(accepted(by_files(diff))->0)
    } else if accepted(by_hunks(diff)) is Some {
        Ok(accepted(by_hunks(diff))->0)
    } else if fits(by_windows(diff, DIFF_SIZE_THRESHOLD as int / 2)) {
        Ok(by_windows(diff, DIFF_SIZE_THRESHOLD as int / 2))
    } else if fits(by_windows(diff, DIFF_SIZE_THRESHOLD as int / 4)) {
        Ok(by_windows(diff, DIFF_SIZE_THRESHOLD as int / 4))
    } else {
        Err(SplitError::Unsplittable)
    }
}

/// Whether every chunk of `r` fits the threshold.
pub fn all_chunks_fit(r: &SplitDiffResult) -> (b: bool)
    ensures
        b == fits(r@),
{
    let mut i: usize = 0;
    while i < r.chunks.len()
        invariant
            i <= r.chunks.len(),
            forall|j: int|
                0 <= j < i ==> (#[trigger] r@.chunks[j]).content.len() <= DIFF_SIZE_THRESHOLD,
        decreases r.chunks.len() - i,
    {
        assert(r@.chunks[i as int] == r.chunks@[i as int]@);
        if r.chunks[i].content.as_str().unicode_len() > DIFF_SIZE_THRESHOLD {
            return false;
        }
        i += 1;
    }
    true
}

/// Splitting always succeeds: the windows of half the threshold fit it.
pub proof fn lemma_split_succeeds(diff: Seq<char>)
    ensures
        split_of(diff) is Ok,
        fits(split_of(diff)->Ok_0),
{
    lemma_windows_reproduce(diff, DIFF_SIZE_THRESHOLD as int / 2);
    if diff.len() <= DIFF_SIZE_THRESHOLD {
        assert(whole(diff).chunks[0].content == diff);
    }
}

/// `diff` split into chunks that each fit the threshold.
///
/// A diff that is no longer than the threshold comes back as one chunk. A
/// longer one is cut by the first way whose chunks all fit the threshold. The
/// windows of half the threshold always do, so splitting never fails.
pub fn split_large_diff(diff: &str) -> (r: Result<SplitDiffResult, SplitError>)
    ensures
        outcome(r) == split_of(diff@),
        r is Ok,
        fits(r->Ok_0@),
        diff@.len() <= DIFF_SIZE_THRESHOLD ==> r->Ok_0@ == whole(diff@),
{
    let text = chars_of(diff);
    proof {
        lemma_split_succeeds(diff@);
    }
    if text.len() <= DIFF_SIZE_THRESHOLD {
        let mut chunks: Vec<DiffChunk> = Vec::new();
        let chunk = make_chunk(&text, &chars_of("Complete diff (no splitting needed)"));
        chunks.push(chunk);
        assert(chunk_views(chunks@) =~= whole(diff@).chunks);
        return Ok(
            SplitDiffResult {
                chunks,
                total_size: text.len(),
                split_method: string_of(&chars_of("none")),
            },
        );
    }
    let mut attempt: usize = 0;
    while attempt < MAX_SPLIT_ATTEMPTS
        invariant
            attempt <= MAX_SPLIT_ATTEMPTS,
            text@ == diff@,
            diff@.len() > DIFF_SIZE_THRESHOLD,
            attempt >= 1 ==> accepted(by_files(diff@)) is None,
            attempt >= 2 ==> accepted(by_hunks(diff@)) is None,
            attempt >= 3 ==> !fits(by_windows(diff@, DIFF_SIZE_THRESHOLD as int / 2)),
            attempt >= 4 ==> !fits(by_windows(diff@, DIFF_SIZE_THRESHOLD as int / 4)),
        decreases MAX_SPLIT_ATTEMPTS - attempt,
    {
        let result = if attempt == 0 {
            files(&text)
        } else if attempt == 1 {
            hunks(&text)
        } else if attempt == 2 {
            Ok(windows(&text, DIFF_SIZE_THRESHOLD / 2))
        } else {
            Ok(windows(&text, DIFF_SIZE_THRESHOLD / 4))
        };
        if let Ok(split) = result {
            if all_chunks_fit(&split) {
                return Ok(split);
            }
        }
        attempt += 1;
    }
    Err(SplitError::Unsplittable)
}

/// Where a diff stays whole or is cut into windows, the contents of the
/// chunks, one after another, are the diff.
pub proof fn lemma_split_reproduces(diff: Seq<char>)
    requires
        split_of(diff) matches Ok(s) && (s.split_method == "none"@ || s.split_method
            == "by_characters"@),
    ensures
        joined(split_of(diff)->Ok_0.chunks) == diff,
{
    reveal_strlit("none");
    reveal_strlit("by_characters");
    reveal_strlit("by_files");
    reveal_strlit("by_hunks");
    let half = DIFF_SIZE_THRESHOLD as int / 2;
    lemma_windows_reproduce(diff, half);
    if diff.len() <= DIFF_SIZE_THRESHOLD {
        let chunks = whole(diff).chunks;
        assert(chunks.drop_last() =~= Seq::<ChunkView>::empty());
        assert(joined(chunks.drop_last()) =~= Seq::<char>::empty());
        assert(joined(chunks) =~= diff);
    } else if accepted(by_files(diff)) is Some {
        assert("by_files"@.len() == 8);
        assert("by_characters"@.len() == 13);
        assert("none"@.len() == 4);
    } else if accepted(by_hunks(diff)) is Some {
        assert("by_hunks"@.len() == 8);
        assert("by_characters"@.len() == 13);
        assert("none"@.len() == 4);
    }
}

/// A result that names no way of cutting holds the diff whole, as its one
/// chunk.
pub proof fn lemma_none_is_whole(diff: Seq<char>)
    requires
        split_of(diff) matches Ok(s) && s.split_method == "none"@,
    ensures
        split_of(diff) == Ok::<SplitView, SplitError>(whole(diff)),
        diff.len() <= DIFF_SIZE_THRESHOLD,
{
    reveal_strlit("none");
    reveal_strlit("by_characters");
    reveal_strlit("by_files");
    reveal_strlit("by_hunks");
    assert("none"@.len() == 4);
    assert("by_files"@.len() == 8);
    assert("by_hunks"@.len() == 8);
    assert("by_characters"@.len() == 13);
    lemma_split_succeeds(diff);
}

} // verus!
