use vstd::prelude::*;

use crate::text::{chars_equal, chars_of, string_of, trim, trim_chars};

verus! {

/// The ignore file's name.
pub const GITIGNORE_FILE: &'static str = ".gitignore";

pub open spec fn line_views(lines: Seq<String>) -> Seq<Seq<char>> {
    lines.map_values(|l: String| l@)
}

/// A line that ignores the whole addons directory: `addons/`, `addons/*`
/// or `addons`, once trimmed.
pub open spec fn is_global_pattern(line: Seq<char>) -> bool {
    let t = trim(line);
    t == seq!['a', 'd', 'd', 'o', 'n', 's', '/'] || t == seq!['a', 'd', 'd', 'o', 'n', 's', '/', '*']
        || t == seq!['a', 'd', 'd', 'o', 'n', 's']
}

/// Whether any line of the ignore file ignores the whole addons directory.
pub fn has_global_addons_ignore(lines: &Vec<String>) -> (r: bool)
    ensures
        r == exists|i: int| 0 <= i < lines@.len() && is_global_pattern(#[trigger] lines@[i]@),
{
    let a1 = vec!['a', 'd', 'd', 'o', 'n', 's', '/'];
    let a2 = vec!['a', 'd', 'd', 'o', 'n', 's', '/', '*'];
    let a3 = vec!['a', 'd', 'd', 'o', 'n', 's'];
    let mut i: usize = 0;
    while i < lines.len()
        invariant
            i <= lines@.len(),
            a1@ == seq!['a', 'd', 'd', 'o', 'n', 's', '/'],
            a2@ == seq!['a', 'd', 'd', 'o', 'n', 's', '/', '*'],
            a3@ == seq!['a', 'd', 'd', 'o', 'n', 's'],
            forall|j: int| 0 <= j < i ==> !is_global_pattern(#[trigger] lines@[j]@),
        decreases lines@.len() - i,
    {
        let t = trim_chars(&chars_of(lines[i].as_str()));
        if chars_equal(&t, &a1) || chars_equal(&t, &a2) || chars_equal(&t, &a3) {
            assert(is_global_pattern(lines@[i as int]@));
            return true;
        }
        i = i + 1;
    }
    false
}

/// The entries that no existing line matches exactly, in order.
pub open spec fn pending(existing: Seq<Seq<char>>, entries: Seq<Seq<char>>) -> Seq<Seq<char>>
    decreases entries.len(),
{
    if entries.len() == 0 {
        entries
    } else {
        let rest = pending(existing, entries.drop_last());
        if existing.contains(entries.last()) {
            rest
        } else {
            rest.push(entries.last())
        }
    }
}

/// Each line followed by a line break.
pub open spec fn joined(lines: Seq<Seq<char>>) -> Seq<char>
    decreases lines.len(),
{
    if lines.len() == 0 {
        Seq::empty()
    } else {
        joined(lines.drop_last()) + lines.last() + seq!['\n']
    }
}

/// The text to append to an ignore file whose lines are `existing` so that
/// it lists `entries`: nothing where all are there; otherwise the missing
/// ones, one per line, after a line break where the file is not empty.
pub open spec fn append_text(existing: Seq<Seq<char>>, entries: Seq<Seq<char>>) -> Option<Seq<char>> {
    let p = pending(existing, entries);
    if p.len() == 0 {
        None
    } else if existing.len() > 0 {
        Some(seq!['\n'] + joined(p))
    } else {
        Some(joined(p))
    }
}

fn contains_line(lines: &Vec<String>, x: &String) -> (r: bool)
    ensures
        r == line_views(lines@).contains(x@),
{
    let mut i: usize = 0;
    while i < lines.len()
        invariant
            i <= lines@.len(),
            forall|j: int| 0 <= j < i ==> #[trigger] lines@[j]@ != x@,
        decreases lines@.len() - i,
    {
        if lines[i] == *x {
            assert(line_views(lines@)[i as int] == x@);
            return true;
        }
        i = i + 1;
    }
    proof {
        if line_views(lines@).contains(x@) {
            let j = choose|j: int| 0 <= j < line_views(lines@).len() && line_views(lines@)[j] == x@;
            assert(lines@[j]@ == x@);
        }
    }
    false
}

fn push_line(buf: &mut Vec<char>, line: &String)
    ensures
        final(buf)@ == old(buf)@ + line@ + seq!['\n'],
{
    let c = chars_of(line.as_str());
    let mut i: usize = 0;
    let ghost b0 = buf@;
    while i < c.len()
        invariant
            i <= c@.len(),
            buf@ == b0 + c@.take(i as int),
        decreases c@.len() - i,
    {
        buf.push(c[i]);
        assert(c@.take(i + 1) =~= c@.take(i as int).push(c@[i as int]));
        assert(b0 + c@.take(i + 1) =~= (b0 + c@.take(i as int)).push(c@[i as int]));
        i = i + 1;
    }
    assert(c@.take(i as int) =~= c@);
    buf.push('\n');
    assert(b0 + line@ + seq!['\n'] =~= (b0 + line@).push('\n'));
}

/// What to append to an ignore file whose lines are `existing` so that it
/// lists every one of `entries` (see `append_text`); `None` where nothing is
/// to be written.
pub fn update_gitignore(existing: &Vec<String>, entries: &Vec<String>) -> (r: Option<String>)
    ensures
        r matches Some(t) ==> append_text(line_views(existing@), line_views(entries@)) == Some(t@),
        r is None ==> append_text(line_views(existing@), line_views(entries@)) is None,
{
    let ghost ex = line_views(existing@);
    let ghost es = line_views(entries@);
    let mut body: Vec<char> = Vec::new();
    let mut count: usize = 0;
    let mut i: usize = 0;
    assert(es.take(0) =~= Seq::<Seq<char>>::empty());
    while i < entries.len()
        invariant
            i <= entries@.len(),
            ex == line_views(existing@),
            es == line_views(entries@),
            count <= i,
            pending(ex, es.take(i as int)).len() == count,
            body@ == joined(pending(ex, es.take(i as int))),
        decreases entries@.len() - i,
    {
        assert(es.take(i + 1).drop_last() =~= es.take(i as int));
        assert(es.take(i + 1).last() == entries@[i as int]@);
        if !contains_line(existing, &entries[i]) {
            let ghost rest = pending(ex, es.take(i as int));
            assert(rest.push(entries@[i as int]@).drop_last() =~= rest);
            push_line(&mut body, &entries[i]);
            count = count + 1;
        }
        i = i + 1;
    }
    assert(es.take(i as int) =~= es);
    if count == 0 {
        None
    } else if existing.len() > 0 {
        let mut text = vec!['\n'];
        let mut j: usize = 0;
        while j < body.len()
            invariant
                j <= body@.len(),
                text@ == seq!['\n'] + body@.take(j as int),
            decreases body@.len() - j,
        {
            text.push(body[j]);
            assert(body@.take(j + 1) =~= body@.take(j as int).push(body@[j as int]));
            assert(seq!['\n'] + body@.take(j + 1) =~= (seq!['\n'] + body@.take(j as int)).push(body@[j as int]));
            j = j + 1;
        }
        assert(body@.take(j as int) =~= body@);
        Some(string_of(&text))
    } else {
        Some(string_of(&body))
    }
}

/// Every entry is either pending or already among the lines.
proof fn lemma_pending(existing: Seq<Seq<char>>, entries: Seq<Seq<char>>)
    ensures
        forall|k: int|
            0 <= k < entries.len() ==> existing.contains(#[trigger] entries[k]) || pending(
                existing,
                entries,
            ).contains(entries[k]),
        forall|k: int|
            0 <= k < pending(existing, entries).len() ==> !existing.contains(
                #[trigger] pending(existing, entries)[k],
            ),
    decreases entries.len(),
{
    if entries.len() > 0 {
        let p = entries.drop_last();
        lemma_pending(existing, p);
        let rest = pending(existing, p);
        let cur = pending(existing, entries);
        assert forall|k: int| 0 <= k < entries.len() implies existing.contains(#[trigger] entries[k])
            || cur.contains(entries[k]) by {
            if k < p.len() {
                assert(p[k] == entries[k]);
                if rest.contains(p[k]) {
                    let j = choose|j: int| 0 <= j < rest.len() && rest[j] == p[k];
                    if !existing.contains(entries.last()) {
                        assert(cur[j] == rest[j]);
                    }
                }
            } else if !existing.contains(entries.last()) {
                assert(cur[rest.len() as int] == entries[k]);
            }
        }
        assert forall|k: int| 0 <= k < cur.len() implies !existing.contains(#[trigger] cur[k]) by {
            if k < rest.len() {
                assert(cur[k] == rest[k]);
            }
        }
    }
}

/// Nothing is pending where every entry is among the lines.
proof fn lemma_nothing_pending(existing: Seq<Seq<char>>, entries: Seq<Seq<char>>)
    requires
        forall|k: int| 0 <= k < entries.len() ==> existing.contains(#[trigger] entries[k]),
    ensures
        pending(existing, entries).len() == 0,
    decreases entries.len(),
{
    if entries.len() > 0 {
        let p = entries.drop_last();
        assert forall|k: int| 0 <= k < p.len() implies existing.contains(#[trigger] p[k]) by {
            assert(p[k] == entries[k]);
        }
        lemma_nothing_pending(existing, p);
        assert(entries[entries.len() - 1] == entries.last());
    }
}

/// Updating the ignore file is idempotent: once the pending entries have
/// been appended, whatever lines came between (a break that ended the last
/// line, or an empty one), a second update with the same entries appends
/// nothing.
pub proof fn lemma_update_gitignore_once(
    existing: Seq<Seq<char>>,
    between: Seq<Seq<char>>,
    entries: Seq<Seq<char>>,
)
    ensures
        append_text(existing + between + pending(existing, entries), entries) is None,
{
    lemma_pending(existing, entries);
    let p = pending(existing, entries);
    let after = existing + between + p;
    assert forall|k: int| 0 <= k < entries.len() implies after.contains(#[trigger] entries[k]) by {
        if existing.contains(entries[k]) {
            let j = choose|j: int| 0 <= j < existing.len() && existing[j] == entries[k];
            assert(after[j] == entries[k]);
        } else {
            let j = choose|j: int| 0 <= j < p.len() && p[j] == entries[k];
            assert(after[existing.len() + between.len() + j] == entries[k]);
        }
    }
    lemma_nothing_pending(after, entries);
}

} // verus!
