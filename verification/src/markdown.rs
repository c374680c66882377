//! The Markdown report: a projection of a snapshot into text.
//!
//! The report opens with the project summary, lists the files by directory
//! and then gives what the analysis said of each file. Directories come in
//! the order of their names, files within a directory in the order of the
//! snapshot.
//!
//! A record path is read as the walk writes it: relative to the project
//! root, its components joined by single `/`. Directory and file name are
//! the two sides of its last `/`; no other form of path is normalized.

use crate::models::{
    models, AIAnalysis, AnalysisPayload, CoreStruct, FileAnalysis, FileRecord, FunctionDetail,
    FunctionNote, ProjectSummary, StructNote, SummaryPayload,
};
use crate::text::{chars_eq, slice_chars, to_chars};
use vstd::prelude::*;
use vstd::string::StringExecFns;

verus! {

/// Appending piece by piece is appending the pieces put together.
pub proof fn lemma_concat_assoc(base: Seq<char>, acc: Seq<char>, piece: Seq<char>)
    ensures
        (base + acc) + piece == base + (acc + piece),
{
    assert((base + acc) + piece =~= base + (acc + piece));
}

/// The decimal digit of `d`, for `d` below ten.
pub open spec fn digit(d: nat) -> char {
    (d + 48) as u8 as char
}

/// `n` in decimal, without leading zeros.
pub open spec fn decimal(n: nat) -> Seq<char>
    decreases n,
{
    if n < 10 {
        seq![digit(n)]
    } else {
        decimal(n / 10).push(digit(n % 10))
    }
}

/// Appends `n` in decimal to `out`.
pub fn push_decimal(out: &mut String, n: usize)
    ensures
        final(out)@ == old(out)@ + decimal(n as nat),
{
    let mut digits: Vec<char> = Vec::new();
    let mut rest: usize = n;
    while rest >= 10
        invariant
            decimal(n as nat) == decimal(rest as nat) + digits@.reverse(),
        decreases rest,
    {
        let d: u8 = (rest % 10) as u8;
        let ghost before = digits@;
        digits.push((d + 48) as char);
        proof {
            let c = digit((rest % 10) as nat);
            assert(digits@ == before.push(c));
            assert(digits@.reverse() =~= seq![c] + before.reverse());
            assert(decimal(rest as nat) == decimal((rest / 10) as nat).push(c));
            assert(decimal((rest / 10) as nat).push(c) + before.reverse() =~= decimal(
                (rest / 10) as nat,
            ) + (seq![c] + before.reverse()));
        }
        rest = rest / 10;
    }
    let d: u8 = rest as u8;
    out.push((d + 48) as char);
    let mut i: usize = digits.len();
    while i > 0
        invariant
            i <= digits.len(),
            rest < 10,
            out@ == old(out)@ + seq![digit(rest as nat)] + digits@.reverse().take(digits.len() - i),
        decreases i,
    {
        let ghost before = out@;
        out.push(digits[i - 1]);
        proof {
            let r = digits@.reverse();
            let k = digits.len() - i;
            assert(r[k] == digits@[i - 1]);
            assert(r.take(k + 1) =~= r.take(k).push(r[k]));
            assert(out@ =~= old(out)@ + seq![digit(rest as nat)] + r.take(k + 1));
        }
        i -= 1;
    }
    assert(digits@.reverse().take(digits.len() as int) == digits@.reverse());
    assert(out@ =~= old(out)@ + decimal(n as nat));
}

/// Appends the characters of `src` to `out`.
pub fn push_chars(out: &mut String, src: &Vec<char>)
    ensures
        final(out)@ == old(out)@ + src@,
{
    let mut i: usize = 0;
    while i < src.len()
        invariant
            i <= src.len(),
            out@ == old(out)@ + src@.take(i as int),
        decreases src.len() - i,
    {
        out.push(src[i]);
        i += 1;
        assert(out@ =~= old(out)@ + src@.take(i as int));
    }
    assert(src@.take(i as int) == src@);
}

/// The index just behind the last `/` of `path`, or zero where it has none.
pub open spec fn name_start(path: Seq<char>) -> nat
    decreases path.len(),
{
    if path.len() == 0 {
        0
    } else if path.last() == '/' {
        path.len()
    } else {
        name_start(path.drop_last())
    }
}

/// The file name of a record path: what follows its last `/`.
pub open spec fn file_name_of(path: Seq<char>) -> Seq<char> {
    path.skip(name_start(path) as int)
}

/// The directory of a record path: what precedes its last `/`. A path without
/// `/` lies in the directory with the empty name; the empty path alone is
/// filed under `root`.
pub open spec fn dir_of(path: Seq<char>) -> Seq<char> {
    if path.len() == 0 {
        "root"@
    } else if name_start(path) == 0 {
        Seq::empty()
    } else {
        path.take(name_start(path) - 1)
    }
}

/// `name_start` lies within the path, right behind a `/` unless it is zero,
/// and no `/` follows it.
pub proof fn lemma_name_start(path: Seq<char>)
    ensures
        name_start(path) <= path.len(),
        name_start(path) > 0 ==> path[name_start(path) - 1] == '/',
        forall|i: int| name_start(path) <= i < path.len() ==> #[trigger] path[i] != '/',
    decreases path.len(),
{
    if path.len() > 0 && path.last() != '/' {
        lemma_name_start(path.drop_last());
        assert forall|i: int| name_start(path) <= i < path.len() implies #[trigger] path[i]
            != '/' by {
            if i < path.len() - 1 {
                assert(path[i] == path.drop_last()[i]);
            }
        }
    }
}

fn find_name_start(path: &Vec<char>) -> (k: usize)
    ensures
        k == name_start(path@),
        k <= path.len(),
{
    let mut k: usize = path.len();
    assert(path@.take(k as int) == path@);
    while k > 0 && path[k - 1] != '/'
        invariant
            k <= path.len(),
            name_start(path@) == name_start(path@.take(k as int)),
        decreases k,
    {
        assert(path@.take(k as int).drop_last() == path@.take(k - 1));
        k -= 1;
    }
    proof {
        lemma_name_start(path@.take(k as int));
    }
    k
}

/// The file name of `path`.
pub fn file_name(path: &Vec<char>) -> (r: Vec<char>)
    ensures
        r@ == file_name_of(path@),
{
    let k = find_name_start(path);
    let r = slice_chars(path, k, path.len());
    assert(path@.subrange(k as int, path.len() as int) == path@.skip(k as int));
    r
}

/// The directory of `path`.
pub fn parent_dir(path: &Vec<char>) -> (r: Vec<char>)
    ensures
        r@ == dir_of(path@),
{
    if path.len() == 0 {
        return to_chars("root");
    }
    let k = find_name_start(path);
    if k == 0 {
        Vec::new()
    } else {
        let r = slice_chars(path, 0, k - 1);
        assert(path@.subrange(0, k - 1) == path@.take(k - 1));
        r
    }
}

/// `s` with every `from` replaced by `to`.
pub open spec fn replace_char(s: Seq<char>, from: char, to: char) -> Seq<char> {
    Seq::new(s.len(), |i: int| if s[i] == from { to } else { s[i] })
}

/// Appends `src` to `out`, with every `from` replaced by `to`.
pub fn push_replaced(out: &mut String, src: &Vec<char>, from: char, to: char)
    ensures
        final(out)@ == old(out)@ + replace_char(src@, from, to),
{
    let mut i: usize = 0;
    while i < src.len()
        invariant
            i <= src.len(),
            out@ == old(out)@ + replace_char(src@, from, to).take(i as int),
        decreases src.len() - i,
    {
        let c: char = src[i];
        if c == from {
            out.push(to);
        } else {
            out.push(c);
        }
        i += 1;
        assert(out@ =~= old(out)@ + replace_char(src@, from, to).take(i as int));
    }
    assert(replace_char(src@, from, to).take(i as int) == replace_char(src@, from, to));
}

/// Whether `a` comes before `b` in the order of strings: character by
/// character, a proper prefix first.
pub open spec fn text_lt(a: Seq<char>, b: Seq<char>) -> bool
    decreases a.len(),
{
    if b.len() == 0 {
        false
    } else if a.len() == 0 {
        true
    } else if a.first() != b.first() {
        (a.first() as u32) < (b.first() as u32)
    } else {
        text_lt(a.drop_first(), b.drop_first())
    }
}

/// Tests whether `a` comes before `b`.
pub fn chars_less(a: &Vec<char>, b: &Vec<char>) -> (r: bool)
    ensures
        r == text_lt(a@, b@),
{
    let mut i: usize = 0;
    assert(a@.skip(0) == a@ && b@.skip(0) == b@);
    while i < a.len() && i < b.len()
        invariant
            i <= a.len(),
            i <= b.len(),
            text_lt(a@, b@) == text_lt(a@.skip(i as int), b@.skip(i as int)),
        decreases a.len() - i,
    {
        if a[i] != b[i] {
            return (a[i] as u32) < (b[i] as u32);
        }
        assert(a@.skip(i as int).drop_first() == a@.skip(i + 1));
        assert(b@.skip(i as int).drop_first() == b@.skip(i + 1));
        i += 1;
    }
    i < b.len()
}

/// The sorted list `dirs` with `d` put in its place, unless it holds `d`.
pub open spec fn insert_sorted(dirs: Seq<Seq<char>>, d: Seq<char>) -> Seq<Seq<char>>
    decreases dirs.len(),
{
    if dirs.len() == 0 {
        seq![d]
    } else if dirs.last() == d {
        dirs
    } else if text_lt(dirs.last(), d) {
        dirs.push(d)
    } else {
        insert_sorted(dirs.drop_last(), d).push(dirs.last())
    }
}

/// The directories of `files`, each once, in the order of strings.
pub open spec fn sorted_dirs(files: Seq<FileRecord>) -> Seq<Seq<char>>
    decreases files.len(),
{
    if files.len() == 0 {
        Seq::empty()
    } else {
        insert_sorted(sorted_dirs(files.drop_last()), dir_of(files.last().path))
    }
}

/// No text comes before itself.
pub proof fn lemma_text_lt_irreflexive(a: Seq<char>)
    ensures
        !text_lt(a, a),
    decreases a.len(),
{
    if a.len() > 0 {
        lemma_text_lt_irreflexive(a.drop_first());
    }
}

/// The order of texts is transitive.
pub proof fn lemma_text_lt_transitive(a: Seq<char>, b: Seq<char>, c: Seq<char>)
    requires
        text_lt(a, b),
        text_lt(b, c),
    ensures
        text_lt(a, c),
    decreases a.len(),
{
    if a.len() > 0 && b.len() > 0 && c.len() > 0 {
        if a.first() == b.first() && b.first() == c.first() {
            lemma_text_lt_transitive(a.drop_first(), b.drop_first(), c.drop_first());
        }
    }
}

/// Of two different texts one comes before the other.
pub proof fn lemma_text_lt_total(a: Seq<char>, b: Seq<char>)
    requires
        a != b,
    ensures
        text_lt(a, b) || text_lt(b, a),
    decreases a.len(),
{
    if a.len() > 0 && b.len() > 0 {
        if a.first() == b.first() {
            if a.drop_first() == b.drop_first() {
                assert(a =~= seq![a.first()] + a.drop_first());
                assert(b =~= seq![b.first()] + b.drop_first());
            }
            lemma_text_lt_total(a.drop_first(), b.drop_first());
        } else {
            vstd::utf8::char_u32_cast(a.first(), a.first() as u32);
            vstd::utf8::char_u32_cast(b.first(), b.first() as u32);
        }
    } else if a.len() == 0 && b.len() == 0 {
        assert(a =~= b);
    }
}

/// Whether each of `dirs` comes before all that follow it.
pub open spec fn strictly_sorted(dirs: Seq<Seq<char>>) -> bool {
    forall|i: int, j: int| 0 <= i < j < dirs.len() ==> text_lt(#[trigger] dirs[i], #[trigger] dirs[j])
}

/// Putting a name into a sorted list keeps it sorted and adds that name and
/// no other.
pub proof fn lemma_insert_sorted(dirs: Seq<Seq<char>>, d: Seq<char>)
    requires
        strictly_sorted(dirs),
    ensures
        strictly_sorted(insert_sorted(dirs, d)),
        forall|x: Seq<char>|
            #![trigger insert_sorted(dirs, d).contains(x)]
            #![trigger dirs.contains(x)]
            insert_sorted(dirs, d).contains(x) <==> dirs.contains(x) || x == d,
    decreases dirs.len(),
{
    let out = insert_sorted(dirs, d);
    if dirs.len() == 0 {
        assert(out[0] == d);
        assert forall|x: Seq<char>|
            #![trigger out.contains(x)]
            #![trigger dirs.contains(x)]
            out.contains(x) <==> dirs.contains(x) || x == d by {
            if x == d {
                assert(out[0] == x);
            }
        }
    } else if dirs.last() == d {
        assert(dirs[dirs.len() - 1] == d);
        assert(dirs.contains(d));
    } else if text_lt(dirs.last(), d) {
        assert forall|i: int, j: int| 0 <= i < j < out.len() implies text_lt(
            #[trigger] out[i],
            #[trigger] out[j],
        ) by {
            if j == dirs.len() {
                if i < dirs.len() - 1 {
                    assert(text_lt(dirs[i], dirs[dirs.len() - 1]));
                    lemma_text_lt_transitive(dirs[i], dirs.last(), d);
                }
            }
        }
        assert forall|x: Seq<char>|
            #![trigger out.contains(x)]
            #![trigger dirs.contains(x)]
            out.contains(x) <==> dirs.contains(x) || x == d by {
            if out.contains(x) {
                let k = choose|k: int| 0 <= k < out.len() && out[k] == x;
                if k < dirs.len() {
                    assert(dirs[k] == x);
                }
            }
            if dirs.contains(x) {
                let k = choose|k: int| 0 <= k < dirs.len() && dirs[k] == x;
                assert(out[k] == x);
            }
            if x == d {
                assert(out[dirs.len() as int] == x);
            }
        }
    } else {
        let init = dirs.drop_last();
        let last = dirs.last();
        assert forall|i: int, j: int| 0 <= i < j < init.len() implies text_lt(
            #[trigger] init[i],
            #[trigger] init[j],
        ) by {
            assert(init[i] == dirs[i] && init[j] == dirs[j]);
        }
        lemma_insert_sorted(init, d);
        let head = insert_sorted(init, d);
        lemma_text_lt_total(last, d);
        assert(out == head.push(last));
        assert forall|i: int, j: int| 0 <= i < j < out.len() implies text_lt(
            #[trigger] out[i],
            #[trigger] out[j],
        ) by {
            if j == head.len() {
                assert(head.contains(head[i]));
                if head[i] != d {
                    let k = choose|k: int| 0 <= k < init.len() && init[k] == head[i];
                    assert(dirs[k] == head[i]);
                    assert(text_lt(dirs[k], dirs[dirs.len() - 1]));
                }
            } else {
                assert(out[i] == head[i] && out[j] == head[j]);
            }
        }
        assert forall|x: Seq<char>|
            #![trigger out.contains(x)]
            #![trigger dirs.contains(x)]
            out.contains(x) <==> dirs.contains(x) || x == d by {
            if out.contains(x) {
                let k = choose|k: int| 0 <= k < out.len() && out[k] == x;
                if k < head.len() {
                    assert(head[k] == x);
                    assert(head.contains(x));
                    if x != d {
                        let m = choose|m: int| 0 <= m < init.len() && init[m] == x;
                        assert(dirs[m] == x);
                    }
                } else {
                    assert(dirs[dirs.len() - 1] == x);
                }
            }
            if dirs.contains(x) {
                let k = choose|k: int| 0 <= k < dirs.len() && dirs[k] == x;
                if k < init.len() {
                    assert(init[k] == x);
                    assert(init.contains(x));
                    let m = choose|m: int| 0 <= m < head.len() && head[m] == x;
                    assert(out[m] == x);
                } else {
                    assert(out[head.len() as int] == x);
                }
            }
            if x == d {
                assert(head.contains(d));
                let m = choose|m: int| 0 <= m < head.len() && head[m] == d;
                assert(out[m] == x);
            }
        }
    }
}

/// The directories of a report come in the order of their names, each once,
/// and they are the directories of the files, no more and no fewer.
pub proof fn lemma_sorted_dirs(files: Seq<FileRecord>)
    ensures
        strictly_sorted(sorted_dirs(files)),
        sorted_dirs(files).no_duplicates(),
        forall|x: Seq<char>|
            #![trigger sorted_dirs(files).contains(x)]
            sorted_dirs(files).contains(x) <==> exists|i: int|
                0 <= i < files.len() && dir_of(#[trigger] files[i].path) == x,
    decreases files.len(),
{
    let out = sorted_dirs(files);
    if files.len() == 0 {
        assert forall|x: Seq<char>| #![trigger out.contains(x)] !out.contains(x) by {}
    }
    if files.len() > 0 {
        let init = files.drop_last();
        lemma_sorted_dirs(init);
        lemma_insert_sorted(sorted_dirs(init), dir_of(files.last().path));
        let prev = sorted_dirs(init);
        let d = dir_of(files.last().path);
        assert(out == insert_sorted(prev, d));
        assert forall|x: Seq<char>|
            #![trigger out.contains(x)]
            out.contains(x) <==> exists|i: int|
                0 <= i < files.len() && dir_of(#[trigger] files[i].path) == x by {
            assert(insert_sorted(prev, d).contains(x) <==> prev.contains(x) || x == d);
            if out.contains(x) {
                if sorted_dirs(init).contains(x) {
                    let i = choose|i: int| 0 <= i < init.len() && dir_of(#[trigger] init[i].path) == x;
                    assert(files[i] == init[i]);
                } else {
                    assert(dir_of(files[files.len() - 1].path) == x);
                }
            }
            if exists|i: int| 0 <= i < files.len() && dir_of(#[trigger] files[i].path) == x {
                let i = choose|i: int| 0 <= i < files.len() && dir_of(#[trigger] files[i].path) == x;
                if i < init.len() {
                    assert(init[i] == files[i]);
                    assert(dir_of(init[i].path) == x);
                    assert(prev.contains(x));
                } else {
                    assert(files[i] == files.last());
                }
            }
        }
    }
    assert forall|i: int, j: int| 0 <= i < j < out.len() implies out[i] != out[j] by {
        assert(text_lt(out[i], out[j]));
        lemma_text_lt_irreflexive(out[i]);
    }
}

fn insert_dir(dirs: &mut Vec<Vec<char>>, d: Vec<char>)
    ensures
        final(dirs).deep_view() == insert_sorted(old(dirs).deep_view(), d@),
{
    let ghost all = dirs.deep_view();
    let mut k: usize = dirs.len();
    let mut placed = false;
    assert(all.take(k as int) == all);
    assert(all.skip(k as int) =~= Seq::<Seq<char>>::empty());
    assert(insert_sorted(all.take(k as int), d@) + all.skip(k as int) =~= insert_sorted(all, d@));
    while k > 0 && !placed
        invariant
            k <= dirs.len(),
            dirs.deep_view() == all,
            all == old(dirs).deep_view(),
            insert_sorted(all, d@) == insert_sorted(all.take(k as int), d@) + all.skip(k as int),
            placed ==> k > 0 && all[k - 1] != d@ && text_lt(all[k - 1], d@),
        decreases k + (if placed { 0int } else { 1int }),
    {
        let ghost head = all.take(k as int);
        assert(head.last() == dirs@[k - 1]@);
        assert(head.drop_last() == all.take(k - 1));
        if chars_eq(&dirs[k - 1], &d) {
            assert(head + all.skip(k as int) =~= all);
            return ;
        }
        if chars_less(&dirs[k - 1], &d) {
            placed = true;
        } else {
            assert(insert_sorted(head, d@) == insert_sorted(all.take(k - 1), d@).push(head.last()));
            assert(insert_sorted(all.take(k - 1), d@).push(head.last()) + all.skip(k as int)
                =~= insert_sorted(all.take(k - 1), d@) + all.skip(k - 1));
            k -= 1;
        }
    }
    proof {
        let head = all.take(k as int);
        if k > 0 {
            assert(head.last() == all[k - 1]);
            assert(insert_sorted(head, d@) == head.push(d@));
        } else {
            assert(insert_sorted(head, d@) =~= head.push(d@));
        }
    }
    let ghost before = dirs@;
    dirs.insert(k, d);
    proof {
        let now = dirs.deep_view();
        let want = all.take(k as int).push(d@) + all.skip(k as int);
        assert(now.len() == want.len());
        assert forall|i: int| 0 <= i < now.len() implies now[i] == want[i] by {
            if i < k {
                assert(dirs@[i] == before[i]);
                assert(all[i] == before[i]@);
            } else if i == k {
            } else {
                assert(dirs@[i] == before[i - 1]);
                assert(all[i - 1] == before[i - 1]@);
            }
        }
        assert(now =~= want);
    }
}

/// The directories of `analyses`, each once, in the order of strings.
pub fn collect_dirs(analyses: &[FileAnalysis]) -> (dirs: Vec<Vec<char>>)
    ensures
        dirs.deep_view() == sorted_dirs(models(analyses@)),
{
    let ghost files = models(analyses@);
    let mut dirs: Vec<Vec<char>> = Vec::new();
    let mut i: usize = 0;
    assert(files.take(0) =~= Seq::<FileRecord>::empty());
    assert(dirs.deep_view() =~= Seq::<Seq<char>>::empty());
    while i < analyses.len()
        invariant
            i <= analyses.len(),
            files == models(analyses@),
            dirs.deep_view() == sorted_dirs(files.take(i as int)),
        decreases analyses.len() - i,
    {
        let path = to_chars(analyses[i].file_path.as_str());
        let d = parent_dir(&path);
        proof {
            assert(files.take(i + 1).drop_last() == files.take(i as int));
            assert(files.take(i + 1).last().path == path@);
        }
        insert_dir(&mut dirs, d);
        i += 1;
    }
    assert(files.take(i as int) == files);
    dirs
}

/// One line for each of `items`: a dash, a space and the item.
pub open spec fn bullet_list(items: Seq<Seq<char>>) -> Seq<char>
    decreases items.len(),
{
    if items.len() == 0 {
        Seq::empty()
    } else {
        bullet_list(items.drop_last()) + "- "@ + items.last() + "\n"@
    }
}

/// `items` as a list under the heading `title`, closed by an empty line;
/// nothing where there are no items.
pub open spec fn titled_list(title: Seq<char>, items: Seq<Seq<char>>) -> Seq<char> {
    if items.len() == 0 {
        Seq::empty()
    } else {
        title + bullet_list(items) + "\n"@
    }
}

fn push_titled_list(out: &mut String, title: &str, items: &Vec<String>)
    ensures
        final(out)@ == old(out)@ + titled_list(title@, items.deep_view()),
{
    let ghost all = items.deep_view();
    if items.len() == 0 {
        assert(out@ =~= old(out)@ + titled_list(title@, all));
        return ;
    }
    out.append(title);
    let mut i: usize = 0;
    assert(all.take(0) =~= Seq::<Seq<char>>::empty());
    assert(out@ =~= old(out)@ + title@ + bullet_list(all.take(0)));
    while i < items.len()
        invariant
            i <= items.len(),
            all == items.deep_view(),
            out@ == old(out)@ + title@ + bullet_list(all.take(i as int)),
        decreases items.len() - i,
    {
        let ghost before = out@;
        out.append("- ");
        out.append(items[i].as_str());
        out.append("\n");
        proof {
            assert(all.take(i + 1).drop_last() == all.take(i as int));
            assert(all.take(i + 1).last() == items@[i as int]@);
            assert(out@ =~= old(out)@ + title@ + bullet_list(all.take(i + 1)));
        }
        i += 1;
    }
    assert(all.take(i as int) == all);
    out.append("\n");
    assert(out@ =~= old(out)@ + titled_list(title@, all));
}

/// A line that gives a count: `label`, the number, `end`.
pub open spec fn count_line(label: Seq<char>, n: nat, end: Seq<char>) -> Seq<char> {
    label + decimal(n) + end
}

/// The opening of the summary section: how many files, how many lines.
pub open spec fn summary_head(s: SummaryPayload) -> Seq<char> {
    "## 專案總結\n\n"@ + "### 基本資訊\n\n"@ + count_line("- 總檔案數："@, s.total_files, "\n"@)
        + count_line("- 總程式碼行數："@, s.total_loc, "\n\n"@)
}

fn push_count_line(out: &mut String, label: &str, n: usize, end: &str)
    ensures
        final(out)@ == old(out)@ + count_line(label@, n as nat, end@),
{
    out.append(label);
    push_decimal(out, n);
    out.append(end);
    assert(out@ =~= old(out)@ + count_line(label@, n as nat, end@));
}

/// The architecture of the project under its heading; nothing where none is
/// given.
pub open spec fn architecture_block(text: Seq<char>) -> Seq<char> {
    if text.len() == 0 {
        Seq::empty()
    } else {
        "### 程式架構\n\n"@ + text + "\n\n"@
    }
}

/// The summary section of the report.
pub open spec fn summary_section(s: SummaryPayload) -> Seq<char> {
    summary_head(s) + titled_list("### 主要功能\n\n"@, s.main_features) + architecture_block(
        s.code_architecture,
    ) + titled_list("### 關鍵元件\n\n"@, s.key_components) + titled_list(
        "### 技術堆疊\n\n"@,
        s.tech_stack,
    ) + titled_list("### 改進建議\n\n"@, s.recommendations) + "---\n\n"@
}

fn push_summary_head(out: &mut String, summary: &ProjectSummary)
    ensures
        final(out)@ == old(out)@ + summary_head(summary@),
{
    out.append("## 專案總結\n\n");
    out.append("### 基本資訊\n\n");
    push_count_line(out, "- 總檔案數：", summary.total_files, "\n");
    push_count_line(out, "- 總程式碼行數：", summary.total_loc, "\n\n");
    assert(out@ =~= old(out)@ + summary_head(summary@));
}

fn push_architecture(out: &mut String, text: &str)
    ensures
        final(out)@ == old(out)@ + architecture_block(text@),
{
    if !text.is_empty() {
        out.append("### 程式架構\n\n");
        out.append(text);
        out.append("\n\n");
    }
    assert(out@ =~= old(out)@ + architecture_block(text@));
}

fn push_summary(out: &mut String, summary: &ProjectSummary)
    ensures
        final(out)@ == old(out)@ + summary_section(summary@),
{
    let ghost s = summary@;
    let ghost base = out@;
    push_summary_head(out, summary);
    let ghost acc1 = summary_head(s);
    push_titled_list(out, "### 主要功能\n\n", &summary.main_features);
    let ghost acc2 = acc1 + titled_list("### 主要功能\n\n"@, s.main_features);
    proof {
        lemma_concat_assoc(base, acc1, titled_list("### 主要功能\n\n"@, s.main_features));
    }
    push_architecture(out, summary.code_architecture.as_str());
    let ghost acc3 = acc2 + architecture_block(s.code_architecture);
    proof {
        lemma_concat_assoc(base, acc2, architecture_block(s.code_architecture));
    }
    push_titled_list(out, "### 關鍵元件\n\n", &summary.key_components);
    let ghost acc4 = acc3 + titled_list("### 關鍵元件\n\n"@, s.key_components);
    proof {
        lemma_concat_assoc(base, acc3, titled_list("### 關鍵元件\n\n"@, s.key_components));
    }
    push_titled_list(out, "### 技術堆疊\n\n", &summary.tech_stack);
    let ghost acc5 = acc4 + titled_list("### 技術堆疊\n\n"@, s.tech_stack);
    proof {
        lemma_concat_assoc(base, acc4, titled_list("### 技術堆疊\n\n"@, s.tech_stack));
    }
    push_titled_list(out, "### 改進建議\n\n", &summary.recommendations);
    let ghost acc6 = acc5 + titled_list("### 改進建議\n\n"@, s.recommendations);
    proof {
        lemma_concat_assoc(base, acc5, titled_list("### 改進建議\n\n"@, s.recommendations));
    }
    out.append("---\n\n");
    proof {
        lemma_concat_assoc(base, acc6, "---\n\n"@);
    }
}

/// The name under which a directory is shown: `根目錄` for `root`.
pub open spec fn shown_dir(dir: Seq<char>) -> Seq<char> {
    if dir == "root"@ {
        "根目錄"@
    } else {
        dir
    }
}

/// The anchor of a directory: `根目錄` for `root`, else the name with `-` for
/// each `/`.
pub open spec fn dir_anchor(dir: Seq<char>) -> Seq<char> {
    if dir == "root"@ {
        "根目錄"@
    } else {
        replace_char(dir, '/', '-')
    }
}

/// The line of a file in the table of contents.
pub open spec fn file_entry(path: Seq<char>) -> Seq<char> {
    " - ["@ + file_name_of(path) + "](#"@ + replace_char(file_name_of(path), '.', '-') + ")\n"@
}

/// The lines, in the table of contents, of the files of `files` that lie in
/// `dir`.
pub open spec fn file_entries(files: Seq<FileRecord>, dir: Seq<char>) -> Seq<char>
    decreases files.len(),
{
    if files.len() == 0 {
        Seq::empty()
    } else if dir_of(files.last().path) == dir {
        file_entries(files.drop_last(), dir) + file_entry(files.last().path)
    } else {
        file_entries(files.drop_last(), dir)
    }
}

/// The line of a directory in the table of contents.
pub open spec fn dir_line(dir: Seq<char>) -> Seq<char> {
    "- ["@ + dir + "](#"@ + dir_anchor(dir) + ")\n"@
}

/// The entry of `dir` in the table of contents: its own line and those of its
/// files.
pub open spec fn dir_entry(files: Seq<FileRecord>, dir: Seq<char>) -> Seq<char> {
    dir_line(dir) + file_entries(files, dir)
}

/// The entries of `dirs` in the table of contents.
pub open spec fn dir_entries(files: Seq<FileRecord>, dirs: Seq<Seq<char>>) -> Seq<char>
    decreases dirs.len(),
{
    if dirs.len() == 0 {
        Seq::empty()
    } else {
        dir_entries(files, dirs.drop_last()) + dir_entry(files, dirs.last())
    }
}

fn push_dir_line(out: &mut String, dir: &Vec<char>)
    ensures
        final(out)@ == old(out)@ + dir_line(dir@),
{
    let root = to_chars("root");
    out.append("- [");
    push_chars(out, dir);
    out.append("](#");
    if chars_eq(dir, &root) {
        out.append("根目錄");
    } else {
        push_replaced(out, dir, '/', '-');
    }
    out.append(")\n");
    assert(out@ =~= old(out)@ + dir_line(dir@));
}

fn push_file_entry(out: &mut String, name: &Vec<char>)
    ensures
        final(out)@ == old(out)@ + (" - ["@ + name@ + "](#"@ + replace_char(name@, '.', '-')
            + ")\n"@),
{
    out.append(" - [");
    push_chars(out, name);
    out.append("](#");
    push_replaced(out, name, '.', '-');
    out.append(")\n");
    assert(out@ =~= old(out)@ + (" - ["@ + name@ + "](#"@ + replace_char(name@, '.', '-')
        + ")\n"@));
}

fn push_dir_entry(out: &mut String, analyses: &[FileAnalysis], dir: &Vec<char>)
    ensures
        final(out)@ == old(out)@ + dir_entry(models(analyses@), dir@),
{
    let ghost files = models(analyses@);
    push_dir_line(out, dir);
    let ghost head = out@;
    let mut i: usize = 0;
    assert(files.take(0) =~= Seq::<FileRecord>::empty());
    assert(out@ =~= head + file_entries(files.take(0), dir@));
    while i < analyses.len()
        invariant
            i <= analyses.len(),
            files == models(analyses@),
            out@ == head + file_entries(files.take(i as int), dir@),
        decreases analyses.len() - i,
    {
        let path = to_chars(analyses[i].file_path.as_str());
        let d = parent_dir(&path);
        proof {
            assert(files.take(i + 1).drop_last() == files.take(i as int));
            assert(files.take(i + 1).last().path == path@);
        }
        if chars_eq(&d, dir) {
            let name = file_name(&path);
            push_file_entry(out, &name);
            assert(out@ =~= head + file_entries(files.take(i + 1), dir@));
        }
        i += 1;
    }
    assert(files.take(i as int) == files);
    assert(out@ =~= old(out)@ + dir_entry(files, dir@));
}

/// The opening of a function's block: its name as a heading and what it
/// does.
pub open spec fn function_head(f: FunctionNote) -> Seq<char> {
    "##### "@ + f.name + "\n\n"@ + "- 說明："@ + f.description + "\n"@
}

/// The parameters of a function under their label; nothing where it has
/// none.
pub open spec fn parameters_block(parameters: Seq<Seq<char>>) -> Seq<char> {
    if parameters.len() == 0 {
        Seq::empty()
    } else {
        "- 參數：\n"@ + indented_list(parameters)
    }
}

/// The close of a function's block: what it returns and a complexity.
pub open spec fn function_tail(f: FunctionNote, complexity: Seq<char>) -> Seq<char> {
    "- 返回類型："@ + f.return_type + "\n"@ + "- 複雜度："@ + complexity + "\n\n"@
}

/// What the report says of one function.
pub open spec fn function_block(f: FunctionNote, complexity: Seq<char>) -> Seq<char> {
    function_head(f) + parameters_block(f.parameters) + function_tail(f, complexity)
}

/// One line for each of `items`: a space, a dash, a space and the item.
pub open spec fn indented_list(items: Seq<Seq<char>>) -> Seq<char>
    decreases items.len(),
{
    if items.len() == 0 {
        Seq::empty()
    } else {
        indented_list(items.drop_last()) + " - "@ + items.last() + "\n"@
    }
}

/// What the report says of each function of `fs`. Each block closes with the
/// complexity of the file, `complexity`.
pub open spec fn function_blocks(fs: Seq<FunctionNote>, complexity: Seq<char>) -> Seq<char>
    decreases fs.len(),
{
    if fs.len() == 0 {
        Seq::empty()
    } else {
        function_blocks(fs.drop_last(), complexity) + function_block(fs.last(), complexity)
    }
}

/// One line for each data type of `cs`: its name in bold, then what it is.
pub open spec fn struct_lines(cs: Seq<StructNote>) -> Seq<char>
    decreases cs.len(),
{
    if cs.len() == 0 {
        Seq::empty()
    } else {
        struct_lines(cs.drop_last()) + "- **"@ + cs.last().name + "**："@ + cs.last().description
            + "\n"@
    }
}

/// The data types of an analysis under their heading; nothing where there
/// are none.
pub open spec fn structs_block(cs: Seq<StructNote>) -> Seq<char> {
    if cs.len() == 0 {
        Seq::empty()
    } else {
        "#### 核心結構體\n\n"@ + struct_lines(cs) + "\n"@
    }
}

/// The functions of an analysis under their heading; nothing where there are
/// none.
pub open spec fn functions_block(fs: Seq<FunctionNote>, complexity: Seq<char>) -> Seq<char> {
    if fs.len() == 0 {
        Seq::empty()
    } else {
        "#### 函數詳情\n\n"@ + function_blocks(fs, complexity)
    }
}

/// The complexity of a file under its heading.
pub open spec fn complexity_block(complexity: Seq<char>) -> Seq<char> {
    "#### 程式碼複雜度\n\n"@ + complexity + "\n\n"@
}

/// What the report says of an analysis.
pub open spec fn payload_section(p: AnalysisPayload) -> Seq<char> {
    titled_list("#### 主要函數\n\n"@, p.main_functions) + structs_block(p.core_structs)
        + titled_list("#### 錯誤類型\n\n"@, p.error_types) + functions_block(
        p.functions_details,
        p.code_complexity,
    ) + complexity_block(p.code_complexity)
}

/// The section of one file: its name, what the analysis said if there is one,
/// and a rule.
pub open spec fn file_section(file: FileRecord) -> Seq<char> {
    "### "@ + file_name_of(file.path) + "\n\n"@ + (match file.payload {
        Some(p) => payload_section(p),
        None => Seq::empty(),
    }) + "---\n\n"@
}

/// The sections of the files of `files` that lie in `dir`.
pub open spec fn file_sections(files: Seq<FileRecord>, dir: Seq<char>) -> Seq<char>
    decreases files.len(),
{
    if files.len() == 0 {
        Seq::empty()
    } else if dir_of(files.last().path) == dir {
        file_sections(files.drop_last(), dir) + file_section(files.last())
    } else {
        file_sections(files.drop_last(), dir)
    }
}

/// The section of `dir`: its heading and the sections of its files.
pub open spec fn dir_section(files: Seq<FileRecord>, dir: Seq<char>) -> Seq<char> {
    "## "@ + shown_dir(dir) + "\n\n"@ + file_sections(files, dir)
}

/// The sections of `dirs`.
pub open spec fn dir_sections(files: Seq<FileRecord>, dirs: Seq<Seq<char>>) -> Seq<char>
    decreases dirs.len(),
{
    if dirs.len() == 0 {
        Seq::empty()
    } else {
        dir_sections(files, dirs.drop_last()) + dir_section(files, dirs.last())
    }
}

fn push_indented_list(out: &mut String, items: &Vec<String>)
    ensures
        final(out)@ == old(out)@ + indented_list(items.deep_view()),
{
    let ghost all = items.deep_view();
    let mut i: usize = 0;
    assert(all.take(0) =~= Seq::<Seq<char>>::empty());
    assert(out@ =~= old(out)@ + indented_list(all.take(0)));
    while i < items.len()
        invariant
            i <= items.len(),
            all == items.deep_view(),
            out@ == old(out)@ + indented_list(all.take(i as int)),
        decreases items.len() - i,
    {
        out.append(" - ");
        out.append(items[i].as_str());
        out.append("\n");
        proof {
            assert(all.take(i + 1).drop_last() == all.take(i as int));
            assert(all.take(i + 1).last() == items@[i as int]@);
            assert(out@ =~= old(out)@ + indented_list(all.take(i + 1)));
        }
        i += 1;
    }
    assert(all.take(i as int) == all);
}

fn push_function_head(out: &mut String, f: &FunctionDetail)
    ensures
        final(out)@ == old(out)@ + function_head(f@),
{
    out.append("##### ");
    out.append(f.name.as_str());
    out.append("\n\n");
    out.append("- 說明：");
    out.append(f.description.as_str());
    out.append("\n");
    assert(out@ =~= old(out)@ + function_head(f@));
}

fn push_parameters(out: &mut String, parameters: &Vec<String>)
    ensures
        final(out)@ == old(out)@ + parameters_block(parameters.deep_view()),
{
    if parameters.len() > 0 {
        out.append("- 參數：\n");
        push_indented_list(out, parameters);
    }
    assert(out@ =~= old(out)@ + parameters_block(parameters.deep_view()));
}

fn push_function_tail(out: &mut String, f: &FunctionDetail, complexity: &str)
    ensures
        final(out)@ == old(out)@ + function_tail(f@, complexity@),
{
    out.append("- 返回類型：");
    out.append(f.return_type.as_str());
    out.append("\n");
    out.append("- 複雜度：");
    out.append(complexity);
    out.append("\n\n");
    assert(out@ =~= old(out)@ + function_tail(f@, complexity@));
}

fn push_function_block(out: &mut String, f: &FunctionDetail, complexity: &str)
    ensures
        final(out)@ == old(out)@ + function_block(f@, complexity@),
{
    push_function_head(out, f);
    push_parameters(out, &f.parameters);
    push_function_tail(out, f, complexity);
    assert(out@ =~= old(out)@ + function_block(f@, complexity@));
}

fn push_function_blocks(out: &mut String, fs: &Vec<FunctionDetail>, complexity: &str)
    ensures
        final(out)@ == old(out)@ + function_blocks(fs.deep_view(), complexity@),
{
    let ghost all = fs.deep_view();
    let mut i: usize = 0;
    assert(all.take(0) =~= Seq::<FunctionNote>::empty());
    assert(out@ =~= old(out)@ + function_blocks(all.take(0), complexity@));
    while i < fs.len()
        invariant
            i <= fs.len(),
            all == fs.deep_view(),
            out@ == old(out)@ + function_blocks(all.take(i as int), complexity@),
        decreases fs.len() - i,
    {
        push_function_block(out, &fs[i], complexity);
        proof {
            assert(all.take(i + 1).drop_last() == all.take(i as int));
            assert(all.take(i + 1).last() == fs@[i as int]@);
            assert(out@ =~= old(out)@ + function_blocks(all.take(i + 1), complexity@));
        }
        i += 1;
    }
    assert(all.take(i as int) == all);
}

fn push_struct_lines(out: &mut String, cs: &Vec<CoreStruct>)
    ensures
        final(out)@ == old(out)@ + struct_lines(cs.deep_view()),
{
    let ghost all = cs.deep_view();
    let mut i: usize = 0;
    assert(all.take(0) =~= Seq::<StructNote>::empty());
    assert(out@ =~= old(out)@ + struct_lines(all.take(0)));
    while i < cs.len()
        invariant
            i <= cs.len(),
            all == cs.deep_view(),
            out@ == old(out)@ + struct_lines(all.take(i as int)),
        decreases cs.len() - i,
    {
        out.append("- **");
        out.append(cs[i].name.as_str());
        out.append("**：");
        out.append(cs[i].description.as_str());
        out.append("\n");
        proof {
            assert(all.take(i + 1).drop_last() == all.take(i as int));
            assert(all.take(i + 1).last() == cs@[i as int]@);
            assert(out@ =~= old(out)@ + struct_lines(all.take(i + 1)));
        }
        i += 1;
    }
    assert(all.take(i as int) == all);
}

fn push_structs_block(out: &mut String, cs: &Vec<CoreStruct>)
    ensures
        final(out)@ == old(out)@ + structs_block(cs.deep_view()),
{
    if cs.len() > 0 {
        out.append("#### 核心結構體\n\n");
        push_struct_lines(out, cs);
        out.append("\n");
    }
    assert(out@ =~= old(out)@ + structs_block(cs.deep_view()));
}

fn push_functions_block(out: &mut String, fs: &Vec<FunctionDetail>, complexity: &str)
    ensures
        final(out)@ == old(out)@ + functions_block(fs.deep_view(), complexity@),
{
    if fs.len() > 0 {
        out.append("#### 函數詳情\n\n");
        push_function_blocks(out, fs, complexity);
    }
    assert(out@ =~= old(out)@ + functions_block(fs.deep_view(), complexity@));
}

fn push_complexity_block(out: &mut String, complexity: &str)
    ensures
        final(out)@ == old(out)@ + complexity_block(complexity@),
{
    out.append("#### 程式碼複雜度\n\n");
    out.append(complexity);
    out.append("\n\n");
    assert(out@ =~= old(out)@ + complexity_block(complexity@));
}

fn push_payload(out: &mut String, ai: &AIAnalysis)
    ensures
        final(out)@ == old(out)@ + payload_section(ai@),
{
    let ghost p = ai@;
    let ghost base = out@;
    push_titled_list(out, "#### 主要函數\n\n", &ai.main_functions);
    let ghost acc1 = titled_list("#### 主要函數\n\n"@, p.main_functions);
    push_structs_block(out, &ai.core_structs);
    let ghost acc2 = acc1 + structs_block(p.core_structs);
    proof {
        lemma_concat_assoc(base, acc1, structs_block(p.core_structs));
    }
    push_titled_list(out, "#### 錯誤類型\n\n", &ai.error_types);
    let ghost acc3 = acc2 + titled_list("#### 錯誤類型\n\n"@, p.error_types);
    proof {
        lemma_concat_assoc(base, acc2, titled_list("#### 錯誤類型\n\n"@, p.error_types));
    }
    push_functions_block(out, &ai.functions_details, ai.code_complexity.as_str());
    let ghost acc4 = acc3 + functions_block(p.functions_details, p.code_complexity);
    proof {
        lemma_concat_assoc(base, acc3, functions_block(p.functions_details, p.code_complexity));
    }
    push_complexity_block(out, ai.code_complexity.as_str());
    proof {
        lemma_concat_assoc(base, acc4, complexity_block(p.code_complexity));
    }
}

fn push_file_section(out: &mut String, analysis: &FileAnalysis, name: &Vec<char>)
    requires
        name@ == file_name_of(analysis@.path),
    ensures
        final(out)@ == old(out)@ + file_section(analysis@),
{
    out.append("### ");
    push_chars(out, name);
    out.append("\n\n");
    let ghost mid = out@;
    match &analysis.ai_analysis {
        Some(ai) => {
            push_payload(out, ai);
        },
        None => {},
    }
    assert(out@ =~= mid + (match analysis@.payload {
        Some(p) => payload_section(p),
        None => Seq::<char>::empty(),
    }));
    out.append("---\n\n");
    assert(out@ =~= old(out)@ + file_section(analysis@));
}

fn push_dir_section(out: &mut String, analyses: &[FileAnalysis], dir: &Vec<char>)
    ensures
        final(out)@ == old(out)@ + dir_section(models(analyses@), dir@),
{
    let ghost files = models(analyses@);
    let root = to_chars("root");
    out.append("## ");
    if chars_eq(dir, &root) {
        out.append("根目錄");
    } else {
        push_chars(out, dir);
    }
    out.append("\n\n");
    let ghost head = out@;
    assert(head =~= old(out)@ + ("## "@ + shown_dir(dir@) + "\n\n"@));
    let mut i: usize = 0;
    assert(files.take(0) =~= Seq::<FileRecord>::empty());
    assert(out@ =~= head + file_sections(files.take(0), dir@));
    while i < analyses.len()
        invariant
            i <= analyses.len(),
            files == models(analyses@),
            out@ == head + file_sections(files.take(i as int), dir@),
        decreases analyses.len() - i,
    {
        let path = to_chars(analyses[i].file_path.as_str());
        let d = parent_dir(&path);
        proof {
            assert(files.take(i + 1).drop_last() == files.take(i as int));
            assert(files.take(i + 1).last() == analyses@[i as int]@);
        }
        if chars_eq(&d, dir) {
            let name = file_name(&path);
            push_file_section(out, &analyses[i], &name);
            assert(out@ =~= head + file_sections(files.take(i + 1), dir@));
        }
        i += 1;
    }
    assert(files.take(i as int) == files);
    assert(out@ =~= old(out)@ + dir_section(files, dir@));
}

/// The part of the report on the files: the table of contents, then a section
/// for each directory.
pub open spec fn files_part(files: Seq<FileRecord>) -> Seq<char> {
    "## 目錄\n\n"@ + dir_entries(files, sorted_dirs(files)) + "\n---\n\n"@ + dir_sections(
        files,
        sorted_dirs(files),
    )
}

/// The report on `files` and `summary`, each of which may be left out.
pub open spec fn markdown_report(files: Option<Seq<FileRecord>>, summary: Option<SummaryPayload>) -> Seq<char> {
    "# Rust 程式碼分析報告\n\n"@ + (match summary {
        Some(s) => summary_section(s),
        None => Seq::empty(),
    }) + (match files {
        Some(fs) => files_part(fs),
        None => Seq::empty(),
    })
}

fn push_files_part(out: &mut String, analyses: &[FileAnalysis])
    ensures
        final(out)@ == old(out)@ + files_part(models(analyses@)),
{
    let ghost files = models(analyses@);
    let dirs = collect_dirs(analyses);
    let ghost ds = dirs.deep_view();
    out.append("## 目錄\n\n");
    let ghost a = out@;
    let mut i: usize = 0;
    assert(ds.take(0) =~= Seq::<Seq<char>>::empty());
    assert(out@ =~= a + dir_entries(files, ds.take(0)));
    while i < dirs.len()
        invariant
            i <= dirs.len(),
            files == models(analyses@),
            ds == dirs.deep_view(),
            out@ == a + dir_entries(files, ds.take(i as int)),
        decreases dirs.len() - i,
    {
        push_dir_entry(out, analyses, &dirs[i]);
        proof {
            assert(ds.take(i + 1).drop_last() == ds.take(i as int));
            assert(ds.take(i + 1).last() == dirs@[i as int]@);
            assert(out@ =~= a + dir_entries(files, ds.take(i + 1)));
        }
        i += 1;
    }
    assert(ds.take(i as int) == ds);
    out.append("\n---\n\n");
    let ghost b = out@;
    let mut j: usize = 0;
    assert(out@ =~= b + dir_sections(files, ds.take(0)));
    while j < dirs.len()
        invariant
            j <= dirs.len(),
            files == models(analyses@),
            ds == dirs.deep_view(),
            out@ == b + dir_sections(files, ds.take(j as int)),
        decreases dirs.len() - j,
    {
        push_dir_section(out, analyses, &dirs[j]);
        proof {
            assert(ds.take(j + 1).drop_last() == ds.take(j as int));
            assert(ds.take(j + 1).last() == dirs@[j as int]@);
            assert(out@ =~= b + dir_sections(files, ds.take(j + 1)));
        }
        j += 1;
    }
    assert(ds.take(j as int) == ds);
    assert(out@ =~= old(out)@ + files_part(files));
}

/// Renders the report on `analyses` and `project_summary`.
pub fn generate_markdown_report(
    analyses: Option<&Vec<FileAnalysis>>,
    project_summary: Option<&ProjectSummary>,
) -> (report: String)
    ensures
        report@ == markdown_report(analyses.deep_view(), project_summary.deep_view()),
{
    let mut out = String::new();
    out.append("# Rust 程式碼分析報告\n\n");
    let ghost a = out@;
    match project_summary {
        Some(s) => {
            push_summary(&mut out, s);
        },
        None => {},
    }
    assert(out@ =~= a + (match project_summary.deep_view() {
        Some(s) => summary_section(s),
        None => Seq::<char>::empty(),
    }));
    let ghost b = out@;
    match analyses {
        Some(list) => {
            assert(models(list@) =~= list.deep_view());
            push_files_part(&mut out, list.as_slice());
        },
        None => {},
    }
    assert(out@ =~= b + (match analyses.deep_view() {
        Some(fs) => files_part(fs),
        None => Seq::<char>::empty(),
    }));
    out
}

} // verus!
