//! The fingerprinter: line statistics of a source text and the fingerprint of
//! its code.
//!
//! A text is read line by line. Each line, trimmed, is blank, comment or code.
//! The fingerprint is the SHA-256 digest, in hexadecimal, of the trimmed code
//! lines joined by line feeds, so that edits to whitespace and to comments
//! leave it unchanged.

use crate::digest::{hex, hex_encode, lemma_hex_injective, sha256, sha256_digest};
use crate::models::{CodeStats, LineStats};
use crate::text::{
    chars_contain, contains_text, extend_chars, from_chars, lemma_lines_shape, lines,
    slice_chars, split_lines, starts_with, to_chars, trim, trim_chars,
};
use vstd::prelude::*;
use vstd::string::StringSliceAdditionalSpecFns;
use vstd::utf8::encode_utf8;

verus! {

/// The line counts of a text and the fingerprint of its code.
#[derive(Debug, PartialEq, Eq)]
pub struct FileStats {
    pub loc: usize,
    pub blank_lines: usize,
    pub comment_lines: usize,
    pub code_lines: usize,
    pub code_hash: String,
}

impl FileStats {
    /// The line counts.
    pub open spec fn counts(&self) -> LineStats {
        LineStats {
            total: self.loc as nat,
            blank: self.blank_lines as nat,
            comment: self.comment_lines as nat,
            code: self.code_lines as nat,
        }
    }

    /// The line counts without the fingerprint.
    pub fn line_counts(&self) -> (r: CodeStats)
        ensures
            r@ == self.counts(),
    {
        CodeStats {
            loc: self.loc,
            blank_lines: self.blank_lines,
            comment_lines: self.comment_lines,
            code_lines: self.code_lines,
        }
    }
}

/// What a line is once trimmed.
#[derive(Debug, Clone, Copy, PartialEq, Eq, Structural)]
pub enum LineKind {
    Blank,
    Comment,
    Code,
}

/// The marker of a comment that runs to the end of its line.
pub open spec fn line_marker() -> Seq<char> {
    seq!['/', '/']
}

/// The marker that opens a block comment.
pub open spec fn block_open() -> Seq<char> {
    seq!['/', '*']
}

/// The marker that closes a block comment.
pub open spec fn block_close() -> Seq<char> {
    seq!['*', '/']
}

/// The marker that by custom starts each inner line of a block comment.
pub open spec fn block_inner() -> Seq<char> {
    seq!['*']
}

/// Whether the trimmed line `t` starts with a comment marker.
pub open spec fn starts_comment(t: Seq<char>) -> bool {
    starts_with(t, line_marker()) || starts_with(t, block_open()) || starts_with(t, block_inner())
}

/// The kind of the trimmed line `t`, read inside a block comment or not.
/// An empty line is blank wherever it stands.
pub open spec fn classify(t: Seq<char>, in_block: bool) -> LineKind {
    if t.len() == 0 {
        LineKind::Blank
    } else if in_block || starts_comment(t) {
        LineKind::Comment
    } else {
        LineKind::Code
    }
}

/// Whether a block comment is open after the trimmed line `t`. Inside a block
/// comment the first closing marker ends it with the line; outside, only a
/// line that starts with the opening marker and does not close it again opens
/// one.
pub open spec fn block_after_line(t: Seq<char>, in_block: bool) -> bool {
    if in_block {
        !contains_text(t, block_close())
    } else {
        starts_with(t, block_open()) && !contains_text(t.skip(2), block_close())
    }
}

/// Whether a block comment is open after all of `ls`.
pub open spec fn in_block_after(ls: Seq<Seq<char>>) -> bool
    decreases ls.len(),
{
    if ls.len() == 0 {
        false
    } else {
        block_after_line(trim(ls.last()), in_block_after(ls.drop_last()))
    }
}

/// The kind of line `i` of `ls`.
pub open spec fn kind_at(ls: Seq<Seq<char>>, i: int) -> LineKind {
    classify(trim(ls[i]), in_block_after(ls.take(i)))
}

/// How many lines of `ls` are of kind `kind`.
pub open spec fn count_kind(ls: Seq<Seq<char>>, kind: LineKind) -> nat
    decreases ls.len(),
{
    if ls.len() == 0 {
        0
    } else if kind_at(ls, ls.len() - 1) == kind {
        count_kind(ls.drop_last(), kind) + 1
    } else {
        count_kind(ls.drop_last(), kind)
    }
}

/// The code lines of `ls`, trimmed, in order.
pub open spec fn code_lines(ls: Seq<Seq<char>>) -> Seq<Seq<char>>
    decreases ls.len(),
{
    if ls.len() == 0 {
        Seq::empty()
    } else if kind_at(ls, ls.len() - 1) == LineKind::Code {
        code_lines(ls.drop_last()).push(trim(ls.last()))
    } else {
        code_lines(ls.drop_last())
    }
}

/// `ls` with a line feed between each two neighbours.
pub open spec fn join_lines(ls: Seq<Seq<char>>) -> Seq<char>
    decreases ls.len(),
{
    if ls.len() == 0 {
        Seq::empty()
    } else if ls.len() == 1 {
        ls.first()
    } else {
        ls.first() + seq!['\n'] + join_lines(ls.drop_first())
    }
}

/// The line counts of `text`.
pub open spec fn line_stats(text: Seq<char>) -> LineStats {
    let ls = lines(text);
    LineStats {
        total: ls.len(),
        blank: count_kind(ls, LineKind::Blank),
        comment: count_kind(ls, LineKind::Comment),
        code: count_kind(ls, LineKind::Code),
    }
}

/// The code of `text` in canonical form: its trimmed code lines, joined.
pub open spec fn code_stream(text: Seq<char>) -> Seq<char> {
    join_lines(code_lines(lines(text)))
}

/// The bytes that the fingerprint of `text` is the digest of.
pub open spec fn code_bytes(text: Seq<char>) -> Seq<u8> {
    encode_utf8(code_stream(text))
}

/// The fingerprint of `text`.
pub open spec fn fingerprint(text: Seq<char>) -> Seq<char> {
    hex(sha256(code_bytes(text)))
}

/// Joining one more line appends it, after a line feed where lines came
/// before.
pub proof fn lemma_join_push(ls: Seq<Seq<char>>, l: Seq<char>)
    ensures
        join_lines(ls.push(l)) == if ls.len() == 0 {
            l
        } else {
            join_lines(ls) + seq!['\n'] + l
        },
    decreases ls.len(),
{
    let all = ls.push(l);
    if ls.len() == 0 {
        assert(all.first() == l);
    } else if ls.len() == 1 {
        assert(all.drop_first() == seq![l]);
        assert(seq![l].first() == l);
        assert(join_lines(seq![l]) == l);
        assert(all.first() == ls.first());
    } else {
        lemma_join_push(ls.drop_first(), l);
        assert(all.drop_first() == ls.drop_first().push(l));
        assert(all.first() == ls.first());
        assert(join_lines(all) == ls.first() + seq!['\n'] + (join_lines(ls.drop_first()) + seq![
            '\n',
        ] + l));
        assert(join_lines(all) =~= join_lines(ls) + seq!['\n'] + l);
    }
}

/// Every line is of exactly one kind, and the code lines are as many as the
/// lines counted as code.
pub proof fn lemma_counts_add_up(ls: Seq<Seq<char>>)
    ensures
        count_kind(ls, LineKind::Blank) + count_kind(ls, LineKind::Comment) + count_kind(
            ls,
            LineKind::Code,
        ) == ls.len(),
        code_lines(ls).len() == count_kind(ls, LineKind::Code),
    decreases ls.len(),
{
    if ls.len() > 0 {
        lemma_counts_add_up(ls.drop_last());
    }
}

/// The line counts of any text add up.
pub proof fn lemma_line_stats_wf(text: Seq<char>)
    ensures
        line_stats(text).wf(),
{
    lemma_counts_add_up(lines(text));
}

/// Lines that agree once trimmed are of the same kinds and give the same
/// code: indentation and trailing whitespace do not matter.
pub proof fn lemma_trimmed_lines_decide(a: Seq<Seq<char>>, b: Seq<Seq<char>>)
    requires
        a.len() == b.len(),
        forall|i: int| 0 <= i < a.len() ==> trim(#[trigger] a[i]) == trim(b[i]),
    ensures
        in_block_after(a) == in_block_after(b),
        code_lines(a) == code_lines(b),
        forall|kind: LineKind| #[trigger] count_kind(a, kind) == count_kind(b, kind),
    decreases a.len(),
{
    if a.len() > 0 {
        let a0 = a.drop_last();
        let b0 = b.drop_last();
        assert forall|i: int| 0 <= i < a0.len() implies trim(#[trigger] a0[i]) == trim(b0[i]) by {
            assert(a0[i] == a[i]);
            assert(b0[i] == b[i]);
        }
        lemma_trimmed_lines_decide(a0, b0);
        assert(a.take(a.len() - 1) == a0);
        assert(b.take(b.len() - 1) == b0);
        assert(trim(a[a.len() - 1]) == trim(b[a.len() - 1]));
        assert(kind_at(a, a.len() - 1) == kind_at(b, b.len() - 1));
        assert forall|kind: LineKind| #[trigger] count_kind(a, kind) == count_kind(b, kind) by {
            assert(count_kind(a0, kind) == count_kind(b0, kind));
        }
    } else {
        assert forall|kind: LineKind| #[trigger] count_kind(a, kind) == count_kind(b, kind) by {}
    }
}

/// Whether the lines `seg`, read after the lines `before`, hold no code and
/// leave the block comment state as they found it: blank lines, whole
/// comments.
pub open spec fn comment_only(before: Seq<Seq<char>>, seg: Seq<Seq<char>>) -> bool {
    &&& in_block_after(before + seg) == in_block_after(before)
    &&& code_lines(before + seg) == code_lines(before)
}

/// A line that is not code and leaves the block comment state as it found it
/// is comment-only: a blank line, a line comment, a block comment on one
/// line, a line inside a block comment that does not close it.
pub proof fn lemma_quiet_line_is_comment_only(before: Seq<Seq<char>>, l: Seq<char>)
    requires
        classify(trim(l), in_block_after(before)) != LineKind::Code,
        block_after_line(trim(l), in_block_after(before)) == in_block_after(before),
    ensures
        comment_only(before, seq![l]),
{
    let all = before + seq![l];
    assert(all.drop_last() == before);
    assert(all.last() == l);
    assert(all.take(all.len() - 1) == before);
}

/// A blank line holds no code and changes no state.
pub proof fn lemma_blank_line_is_comment_only(before: Seq<Seq<char>>, l: Seq<char>)
    requires
        trim(l).len() == 0,
    ensures
        comment_only(before, seq![l]),
{
    let all = before + seq![l];
    assert(all.drop_last() == before);
    assert(all.last() == l);
    assert(all.take(all.len() - 1) == before);
    assert(!starts_with(trim(l), block_open()));
    assert forall|i: int| !crate::text::occurs_at(trim(l), block_close(), i) by {}
}

/// Outside a block comment, a line that starts with the line comment marker
/// holds no code and changes no state.
pub proof fn lemma_line_comment_is_comment_only(before: Seq<Seq<char>>, l: Seq<char>)
    requires
        !in_block_after(before),
        starts_with(trim(l), line_marker()),
    ensures
        comment_only(before, seq![l]),
{
    let all = before + seq![l];
    assert(all.drop_last() == before);
    assert(all.last() == l);
    assert(all.take(all.len() - 1) == before);
    let t = trim(l);
    assert(t.take(2)[1] == '/');
    if starts_with(t, block_open()) {
        assert(t.take(2)[1] == '*');
    }
}

/// Lines that hold no code and leave the block comment state unchanged can be
/// taken out, or put in, anywhere: the code around them stays the same.
pub proof fn lemma_comment_only_segment(
    before: Seq<Seq<char>>,
    seg: Seq<Seq<char>>,
    after: Seq<Seq<char>>,
)
    requires
        comment_only(before, seg),
    ensures
        in_block_after(before + seg + after) == in_block_after(before + after),
        code_lines(before + seg + after) == code_lines(before + after),
    decreases after.len(),
{
    let with = before + seg + after;
    let without = before + after;
    if after.len() == 0 {
        assert(with == before + seg);
        assert(without == before);
    } else {
        let rest = after.drop_last();
        lemma_comment_only_segment(before, seg, rest);
        assert(with.drop_last() == before + seg + rest);
        assert(without.drop_last() == before + rest);
        assert(with.take(with.len() - 1) == with.drop_last());
        assert(without.take(without.len() - 1) == without.drop_last());
        assert(with.last() == after.last());
        assert(without.last() == after.last());
    }
}

/// Texts that differ only in the whitespace around their lines have the same
/// line counts and the same fingerprint.
pub proof fn lemma_fingerprint_ignores_whitespace(t1: Seq<char>, t2: Seq<char>)
    requires
        lines(t1).len() == lines(t2).len(),
        forall|i: int| 0 <= i < lines(t1).len() ==> trim(#[trigger] lines(t1)[i]) == trim(lines(t2)[i]),
    ensures
        fingerprint(t1) == fingerprint(t2),
        line_stats(t1) == line_stats(t2),
{
    lemma_trimmed_lines_decide(lines(t1), lines(t2));
}

/// Texts that differ only in lines without code (blank lines, comments) have
/// the same fingerprint.
pub proof fn lemma_fingerprint_ignores_comments(
    t1: Seq<char>,
    t2: Seq<char>,
    before: Seq<Seq<char>>,
    seg: Seq<Seq<char>>,
    after: Seq<Seq<char>>,
)
    requires
        lines(t1) == before + seg + after,
        lines(t2) == before + after,
        comment_only(before, seg),
    ensures
        fingerprint(t1) == fingerprint(t2),
{
    lemma_comment_only_segment(before, seg, after);
}

/// Texts with the same code lines have the same fingerprint, whatever else
/// they hold.
pub proof fn lemma_fingerprint_of_code(t1: Seq<char>, t2: Seq<char>)
    requires
        code_lines(lines(t1)) == code_lines(lines(t2)),
    ensures
        fingerprint(t1) == fingerprint(t2),
{
}

/// Whether every line of `ls` is non-empty and free of line feeds.
pub open spec fn plain_lines(ls: Seq<Seq<char>>) -> bool {
    forall|k: int|
        0 <= k < ls.len() ==> (#[trigger] ls[k]).len() > 0 && !ls[k].contains('\n')
}

/// The first line of a joined text can be read back from it.
proof fn lemma_join_head(ls: Seq<Seq<char>>)
    requires
        ls.len() > 0,
    ensures
        join_lines(ls).len() >= ls[0].len(),
        join_lines(ls).take(ls[0].len() as int) == ls[0],
        ls.len() == 1 ==> join_lines(ls) == ls[0],
        ls.len() > 1 ==> join_lines(ls).len() > ls[0].len() && join_lines(ls)[ls[0].len() as int]
            == '\n' && join_lines(ls).skip(ls[0].len() as int + 1) == join_lines(ls.drop_first()),
{
    if ls.len() == 1 {
        assert(ls[0].take(ls[0].len() as int) == ls[0]);
    } else {
        let j = ls.first() + seq!['\n'] + join_lines(ls.drop_first());
        assert(join_lines(ls) == j);
        assert(j.take(ls[0].len() as int) =~= ls[0]);
        assert(j[ls[0].len() as int] == '\n');
        assert(j.skip(ls[0].len() as int + 1) =~= join_lines(ls.drop_first()));
    }
}

/// Joining loses nothing: non-empty lines without line feeds can be read back
/// from their joined text.
pub proof fn lemma_join_injective(a: Seq<Seq<char>>, b: Seq<Seq<char>>)
    requires
        plain_lines(a),
        plain_lines(b),
        join_lines(a) == join_lines(b),
    ensures
        a == b,
    decreases a.len(),
{
    if a.len() == 0 {
        if b.len() > 0 {
            lemma_join_head(b);
            assert(b[0].len() > 0);
        }
        assert(a =~= b);
    } else if b.len() == 0 {
        lemma_join_head(a);
        assert(a[0].len() > 0);
    } else {
        lemma_join_head(a);
        lemma_join_head(b);
        let j = join_lines(a);
        let n = a[0].len() as int;
        let m = b[0].len() as int;
        if n < m {
            if a.len() > 1 {
                assert(j.take(m)[n] == '\n');
                assert(b[0][n] == '\n');
                assert(b[0].contains('\n'));
            }
        } else if m < n {
            if b.len() > 1 {
                assert(j.take(n)[m] == '\n');
                assert(a[0][m] == '\n');
                assert(a[0].contains('\n'));
            }
        }
        assert(n == m);
        assert(a[0] == b[0]);
        let a1 = a.drop_first();
        let b1 = b.drop_first();
        assert(plain_lines(a1)) by {
            assert forall|k: int| 0 <= k < a1.len() implies (#[trigger] a1[k]).len() > 0
                && !a1[k].contains('\n') by {
                assert(a1[k] == a[k + 1]);
            }
        }
        assert(plain_lines(b1)) by {
            assert forall|k: int| 0 <= k < b1.len() implies (#[trigger] b1[k]).len() > 0
                && !b1[k].contains('\n') by {
                assert(b1[k] == b[k + 1]);
            }
        }
        if a.len() == 1 {
            if b.len() > 1 {
                assert(false);
            }
            assert(a =~= b);
        } else {
            if b.len() == 1 {
                assert(false);
            }
            lemma_join_injective(a1, b1);
            assert(a =~= seq![a[0]] + a1);
            assert(b =~= seq![b[0]] + b1);
        }
    }
}

/// Trimming keeps only characters of the text trimmed.
proof fn lemma_trim_keeps_chars(s: Seq<char>, c: char)
    requires
        trim(s).contains(c),
    ensures
        s.contains(c),
{
    crate::text::lemma_trim_start_shape(s);
    let t = crate::text::trim_start(s);
    crate::text::lemma_trim_end_shape(t);
    let u = trim(s);
    let k = choose|k: int| 0 <= k < u.len() && u[k] == c;
    assert(u[k] == t[k]);
    assert(t[k] == s[k + (s.len() - t.len())]);
}

/// The code lines of lines without line feeds are non-empty and without line
/// feeds.
pub proof fn lemma_code_lines_plain(ls: Seq<Seq<char>>)
    requires
        forall|k: int| 0 <= k < ls.len() ==> !(#[trigger] ls[k]).contains('\n'),
    ensures
        plain_lines(code_lines(ls)),
    decreases ls.len(),
{
    if ls.len() > 0 {
        let init = ls.drop_last();
        assert forall|k: int| 0 <= k < init.len() implies !(#[trigger] init[k]).contains('\n') by {
            assert(init[k] == ls[k]);
        }
        lemma_code_lines_plain(init);
        if kind_at(ls, ls.len() - 1) == LineKind::Code {
            let t = trim(ls.last());
            if t.contains('\n') {
                lemma_trim_keeps_chars(ls.last(), '\n');
            }
            let cl = code_lines(ls);
            assert forall|k: int| 0 <= k < cl.len() implies (#[trigger] cl[k]).len() > 0
                && !cl[k].contains('\n') by {
                if k < cl.len() - 1 {
                    assert(cl[k] == code_lines(init)[k]);
                }
            }
        }
    }
}

/// Two texts have the same fingerprint exactly when the digests of their code
/// agree, and texts whose code lines differ hand the digest different bytes.
/// Whether the digest tells those bytes apart is left to the digest.
pub proof fn lemma_fingerprint_follows_code(t1: Seq<char>, t2: Seq<char>)
    ensures
        fingerprint(t1) == fingerprint(t2) <==> sha256(code_bytes(t1)) == sha256(code_bytes(t2)),
        code_lines(lines(t1)) != code_lines(lines(t2)) ==> code_bytes(t1) != code_bytes(t2),
{
    if fingerprint(t1) == fingerprint(t2) {
        lemma_hex_injective(sha256(code_bytes(t1)), sha256(code_bytes(t2)));
    }
    if code_bytes(t1) == code_bytes(t2) {
        vstd::utf8::encode_utf8_decode_utf8(code_stream(t1));
        vstd::utf8::encode_utf8_decode_utf8(code_stream(t2));
        assert(code_stream(t1) == code_stream(t2));
        lemma_lines_shape(t1);
        lemma_lines_shape(t2);
        assert forall|k: int| 0 <= k < lines(t1).len() implies !(#[trigger] lines(t1)[k]).contains(
            '\n',
        ) by {}
        assert forall|k: int| 0 <= k < lines(t2).len() implies !(#[trigger] lines(t2)[k]).contains(
            '\n',
        ) by {}
        lemma_code_lines_plain(lines(t1));
        lemma_code_lines_plain(lines(t2));
        lemma_join_injective(code_lines(lines(t1)), code_lines(lines(t2)));
    }
}

fn is_comment_start(t: &Vec<char>) -> (r: bool)
    ensures
        r == starts_comment(t@),
{
    let n: usize = t.len();
    proof {
        if n >= 1 {
            assert(t@.take(1) == seq![t@[0]]);
            assert(seq![t@[0]][0] == t@[0]);
        }
        if n >= 2 {
            assert(t@.take(2) == seq![t@[0], t@[1]]);
            assert(seq![t@[0], t@[1]][0] == t@[0]);
            assert(seq![t@[0], t@[1]][1] == t@[1]);
        }
        assert(block_inner()[0] == '*');
        assert(line_marker()[0] == '/' && line_marker()[1] == '/');
        assert(block_open()[0] == '/' && block_open()[1] == '*');
    }
    if n >= 1 && t[0] == '*' {
        return true;
    }
    n >= 2 && t[0] == '/' && (t[1] == '/' || t[1] == '*')
}

fn opens_block(t: &Vec<char>) -> (r: bool)
    ensures
        r == starts_with(t@, block_open()),
{
    let n: usize = t.len();
    proof {
        if n >= 2 {
            assert(t@.take(2) == seq![t@[0], t@[1]]);
            assert(seq![t@[0], t@[1]][0] == t@[0]);
            assert(seq![t@[0], t@[1]][1] == t@[1]);
        }
        assert(block_open()[0] == '/' && block_open()[1] == '*');
    }
    n >= 2 && t[0] == '/' && t[1] == '*'
}

/// Classifies the trimmed line `t`.
pub fn classify_line(t: &Vec<char>, in_block: bool) -> (kind: LineKind)
    ensures
        kind == classify(t@, in_block),
{
    if t.len() == 0 {
        LineKind::Blank
    } else if in_block || is_comment_start(t) {
        LineKind::Comment
    } else {
        LineKind::Code
    }
}

/// Whether a block comment is open after the trimmed line `t`.
pub fn next_block_state(t: &Vec<char>, in_block: bool) -> (r: bool)
    ensures
        r == block_after_line(t@, in_block),
{
    let close: Vec<char> = vec!['*', '/'];
    assert(close@ == block_close());
    if in_block {
        !chars_contain(t, &close)
    } else if opens_block(t) {
        let rest = slice_chars(t, 2, t.len());
        assert(rest@ == t@.skip(2));
        !chars_contain(&rest, &close)
    } else {
        false
    }
}

/// Counts the lines of `content` by kind and fingerprints its code.
pub fn analyze_code(content: &str) -> (stats: FileStats)
    ensures
        stats.counts() == line_stats(content@),
        stats.counts().wf(),
        stats.code_hash@ == fingerprint(content@),
{
    let chars = to_chars(content);
    let ls = split_lines(&chars);
    let ghost all = lines(content@);
    let n: usize = ls.len();
    let mut blank: usize = 0;
    let mut comment: usize = 0;
    let mut code: usize = 0;
    let mut in_block = false;
    let mut stream: Vec<char> = Vec::new();
    let mut i: usize = 0;
    assert(all.take(0) == Seq::<Seq<char>>::empty());
    while i < n
        invariant
            n == ls.len(),
            ls.deep_view() == all,
            i <= n,
            blank == count_kind(all.take(i as int), LineKind::Blank),
            comment == count_kind(all.take(i as int), LineKind::Comment),
            code == count_kind(all.take(i as int), LineKind::Code),
            blank + comment + code == i,
            in_block == in_block_after(all.take(i as int)),
            stream@ == join_lines(code_lines(all.take(i as int))),
        decreases n - i,
    {
        let ghost seen = all.take(i as int);
        let ghost next = all.take(i + 1);
        let t = trim_chars(&ls[i]);
        proof {
            assert(ls.deep_view()[i as int] == ls@[i as int]@);
            assert(next.drop_last() == seen);
            assert(next.last() == all[i as int]);
            assert(next.take(next.len() - 1) == seen);
            lemma_counts_add_up(seen);
            lemma_counts_add_up(next);
            lemma_join_push(code_lines(seen), t@);
        }
        let kind = classify_line(&t, in_block);
        assert(kind == kind_at(next, next.len() - 1));
        match kind {
            LineKind::Blank => {
                blank += 1;
            },
            LineKind::Comment => {
                comment += 1;
            },
            LineKind::Code => {
                if code > 0 {
                    stream.push('\n');
                }
                extend_chars(&mut stream, &t);
                code += 1;
            },
        }
        in_block = next_block_state(&t, in_block);
        i += 1;
    }
    assert(all.take(n as int) == all);
    proof {
        lemma_counts_add_up(all);
    }
    let canonical = from_chars(&stream);
    let digest = sha256_digest(canonical.as_str().as_bytes());
    let code_hash = hex_encode(&digest);
    FileStats { loc: n, blank_lines: blank, comment_lines: comment, code_lines: code, code_hash }
}

} // verus!
