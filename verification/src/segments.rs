//! Entry names as sequences of path segments.

use vstd::prelude::*;
use vstd::std_specs::iter::IteratorSpec;
use vstd::string::StrSliceExecFns;

verus! {

/// A path segment: not empty, and without a separator in it.
pub open spec fn is_segment(text: Seq<char>) -> bool {
    text.len() > 0 && forall|i: int| 0 <= i < text.len() ==> text[i] != '/'
}

/// How many characters stand before the first separator of `text`.
pub open spec fn run_len(text: Seq<char>) -> int
    decreases text.len(),
{
    if text.len() == 0 || text[0] == '/' {
        0
    } else {
        1 + run_len(text.skip(1))
    }
}

/// The segments of an entry name, in order: the longest stretches of
/// characters without a separator. Separators at either end, or several in
/// a row, leave no empty segment behind.
pub open spec fn segments(entry: Seq<char>) -> Seq<Seq<char>>
    decreases entry.len(),
{
    if entry.len() == 0 {
        Seq::empty()
    } else if entry[0] == '/' {
        segments(entry.skip(1))
    } else {
        let first = run_len(entry);
        if 0 < first <= entry.len() {
            seq![entry.take(first)] + segments(entry.skip(first))
        } else {
            Seq::empty()
        }
    }
}

/// The texts of string slices, one by one.
pub open spec fn texts(parts: Seq<&str>) -> Seq<Seq<char>> {
    parts.map_values(|part: &str| part@)
}

/// The run before the first separator is where the first separator, or the
/// end, is found.
pub proof fn lemma_run_len(text: Seq<char>, stop: int)
    requires
        0 <= stop <= text.len(),
        forall|i: int| 0 <= i < stop ==> text[i] != '/',
        stop == text.len() || text[stop] == '/',
    ensures
        run_len(text) == stop,
    decreases text.len(),
{
    if stop > 0 {
        let rest = text.skip(1);
        assert forall|i: int| 0 <= i < stop - 1 implies rest[i] != '/' by {
            assert(rest[i] == text[i + 1]);
        }
        lemma_run_len(rest, stop - 1);
    }
}

/// Every segment of an entry name is a path segment.
pub proof fn lemma_segments_are_segments(entry: Seq<char>)
    ensures
        forall|k: int| 0 <= k < segments(entry).len() ==> is_segment(#[trigger] segments(entry)[k]),
    decreases entry.len(),
{
    if entry.len() == 0 {
    } else if entry[0] == '/' {
        lemma_segments_are_segments(entry.skip(1));
        assert(segments(entry) == segments(entry.skip(1)));
    } else {
        let first = run_len(entry);
        lemma_run_bounds(entry);
        assert(first > 0);
        lemma_segments_are_segments(entry.skip(first));
        let head = seq![entry.take(first)];
        let tail = segments(entry.skip(first));
        assert(segments(entry) == head + tail);
        assert forall|k: int| 0 <= k < segments(entry).len() implies is_segment(
            #[trigger] segments(entry)[k],
        ) by {
            if k == 0 {
                assert(segments(entry)[0] == entry.take(first));
            } else {
                assert(segments(entry)[k] == tail[k - 1]);
            }
        }
    }
}

/// The run before the first separator lies inside the text and holds no
/// separator; a separator, or the end, follows it.
pub proof fn lemma_run_bounds(text: Seq<char>)
    ensures
        0 <= run_len(text) <= text.len(),
        forall|i: int| 0 <= i < run_len(text) ==> text[i] != '/',
        run_len(text) == text.len() || text[run_len(text)] == '/',
    decreases text.len(),
{
    if text.len() == 0 || text[0] == '/' {
    } else {
        let rest = text.skip(1);
        lemma_run_bounds(rest);
        assert forall|i: int| 0 <= i < run_len(text) implies text[i] != '/' by {
            if i > 0 {
                assert(rest[i - 1] == text[i]);
            }
        }
    }
}

/// Whether `text` is a path segment.
pub fn is_path_segment(text: &str) -> (ok: bool)
    ensures
        ok == is_segment(text@),
{
    broadcast use vstd::string::group_string_axioms;

    let mut chars = text.chars();
    let ghost mut at: int = 0;
    let mut any = false;
    assert(text@.skip(0) =~= text@);
    loop
        invariant
            0 <= at <= text@.len(),
            any == (at > 0),
            chars.remaining() == text@.skip(at),
            forall|i: int| 0 <= i < at ==> text@[i] != '/',
        decreases text@.len() - at,
    {
        match chars.next() {
            None => {
                return any;
            },
            Some(c) => {
                assert(c == text@[at]);
                if c == '/' {
                    return false;
                }
                any = true;
                proof {
                    assert(text@.skip(at).drop_first() =~= text@.skip(at + 1));
                    at = at + 1;
                }
            },
        }
    }
}

/// The path that segments spell: every segment behind a separator.
pub open spec fn path_text(segs: Seq<Seq<char>>) -> Seq<char>
    decreases segs.len(),
{
    if segs.len() == 0 {
        Seq::empty()
    } else {
        seq!['/'] + segs[0] + path_text(segs.skip(1))
    }
}

/// The segments of the path that segments spell are those segments.
pub proof fn lemma_segments_of_path_text(segs: Seq<Seq<char>>)
    requires
        forall|k: int| 0 <= k < segs.len() ==> is_segment(#[trigger] segs[k]),
    ensures
        segments(path_text(segs)) == segs,
    decreases segs.len(),
{
    if segs.len() == 0 {
        assert(segments(path_text(segs)) =~= segs);
    } else {
        let first = segs[0];
        let rest = segs.skip(1);
        let text = path_text(segs);
        let tail = text.skip(1);
        assert(is_segment(first));
        assert forall|k: int| 0 <= k < rest.len() implies is_segment(#[trigger] rest[k]) by {
            assert(rest[k] == segs[k + 1]);
        }
        lemma_segments_of_path_text(rest);
        assert(text[0] == '/');
        assert(tail =~= first + path_text(rest));
        assert(segments(text) == segments(tail));
        assert(first.len() == tail.len() || tail[first.len() as int] == '/') by {
            if rest.len() > 0 {
                assert(path_text(rest)[0] == '/');
            } else {
                assert(path_text(rest).len() == 0);
            }
        }
        assert forall|i: int| 0 <= i < first.len() implies tail[i] != '/' by {
            assert(tail[i] == first[i]);
        }
        lemma_run_len(tail, first.len() as int);
        assert(tail.take(first.len() as int) =~= first);
        assert(tail.skip(first.len() as int) =~= path_text(rest));
        assert(tail[0] != '/');
        assert(segments(tail) == seq![first] + segments(path_text(rest)));
        assert(seq![first] + rest =~= segs);
    }
}

/// The name of the entry that a path of segments stands for is the path
/// without its first separator.
pub proof fn lemma_entry_name_of_path_text(segs: Seq<Seq<char>>)
    requires
        segs.len() > 0,
        is_segment(segs[0]),
    ensures
        without_leading_separators(path_text(segs)) == path_text(segs).skip(1),
{
    let text = path_text(segs);
    let tail = text.skip(1);
    assert(text[0] == '/');
    assert(tail =~= segs[0] + path_text(segs.skip(1)));
    assert(tail[0] == segs[0][0]);
    assert(without_leading_separators(text) == without_leading_separators(tail));
}

/// `path` without the separators at its start.
pub open spec fn without_leading_separators(path: Seq<char>) -> Seq<char>
    decreases path.len(),
{
    if path.len() > 0 && path[0] == '/' {
        without_leading_separators(path.skip(1))
    } else {
        path
    }
}

/// The name under which the archive holds what a node's path stands for:
/// the path without the separators at its start.
pub fn entry_name<'a>(path: &'a str) -> (name: &'a str)
    ensures
        name@ == without_leading_separators(path@),
{
    broadcast use vstd::string::group_string_axioms;

    let total = path.unicode_len();
    let mut chars = path.chars();
    let mut at: usize = 0;
    assert(path@.skip(0) =~= path@);
    loop
        invariant_except_break
            chars.remaining() == path@.skip(at as int),
        invariant
            total == path@.len(),
            at <= total,
            without_leading_separators(path@.skip(at as int)) == without_leading_separators(path@),
        ensures
            at == total || path@[at as int] != '/',
        decreases total - at,
    {
        match chars.next() {
            None => {
                break;
            },
            Some(c) => {
                assert(c == path@[at as int]);
                if c != '/' {
                    break;
                }
                assert(path@.skip(at as int).skip(1) =~= path@.skip(at + 1));
                at = at + 1;
                assert(path@.skip(at - 1).drop_first() =~= path@.skip(at as int));
            },
        }
    }
    assert(path@.subrange(at as int, total as int) =~= path@.skip(at as int));
    path.substring_char(at, total)
}

/// Splits an entry name into its segments.
pub fn split_path<'a>(entry: &'a str) -> (parts: Vec<&'a str>)
    ensures
        texts(parts@) == segments(entry@),
{
    broadcast use vstd::string::group_string_axioms;

    let total = entry.unicode_len();
    let mut parts: Vec<&'a str> = Vec::new();
    let mut chars = entry.chars();
    let mut start: usize = 0;
    let mut at: usize = 0;
    assert(texts(parts@) =~= Seq::<Seq<char>>::empty());
    assert(entry@.skip(0) =~= entry@);
    loop
        invariant_except_break
            chars.remaining() == entry@.skip(at as int),
        invariant
            total == entry@.len(),
            start <= at <= total,
            forall|i: int| start <= i < at ==> entry@[i] != '/',
            texts(parts@) + segments(entry@.skip(start as int)) == segments(entry@),
        ensures
            at == total,
        decreases total - at,
    {
        match chars.next() {
            None => {
                break;
            },
            Some(c) => {
                assert(c == entry@[at as int]);
                if c == '/' {
                    proof {
                        lemma_segments_step(entry@, start as int, at as int);
                    }
                    if start < at {
                        let part = entry.substring_char(start, at);
                        proof {
                            lemma_texts_push(parts@, part);
                        }
                        parts.push(part);
                    }
                    start = at + 1;
                }
                at = at + 1;
                assert(entry@.skip(at - 1).drop_first() =~= entry@.skip(at as int));
            },
        }
    }
    proof {
        lemma_segments_last(entry@, start as int);
    }
    if start < at {
        let part = entry.substring_char(start, at);
        proof {
            lemma_texts_push(parts@, part);
        }
        parts.push(part);
    }
    parts
}

proof fn lemma_texts_push(parts: Seq<&str>, part: &str)
    ensures
        texts(parts.push(part)) == texts(parts) + seq![part@],
{
    assert(texts(parts.push(part)) =~= texts(parts) + seq![part@]);
}

/// With a separator at `at` and none from `start` up to it, what stands from
/// `start` on splits into the stretch before `at`, unless that is empty, and
/// the segments of what follows the separator.
proof fn lemma_segments_step(entry: Seq<char>, start: int, at: int)
    requires
        0 <= start <= at < entry.len(),
        entry[at] == '/',
        forall|i: int| start <= i < at ==> entry[i] != '/',
    ensures
        segments(entry.skip(start)) == if start < at {
            seq![entry.subrange(start, at)] + segments(entry.skip(at + 1))
        } else {
            segments(entry.skip(at + 1))
        },
{
    let rest = entry.skip(start);
    let after = rest.skip(at - start);
    assert(after =~= entry.skip(at));
    assert(after.skip(1) =~= entry.skip(at + 1));
    assert(after[0] == '/');
    assert(segments(after) == segments(after.skip(1)));
    if start < at {
        lemma_run_len(rest, at - start);
        assert(rest.take(at - start) =~= entry.subrange(start, at));
        assert(rest[0] != '/');
        assert(segments(rest) == seq![rest.take(at - start)] + segments(after));
    } else {
        assert(rest =~= after);
    }
}

/// Without a separator from `start` on, what stands there is one segment,
/// unless it is empty.
proof fn lemma_segments_last(entry: Seq<char>, start: int)
    requires
        0 <= start <= entry.len(),
        forall|i: int| start <= i < entry.len() ==> entry[i] != '/',
    ensures
        segments(entry.skip(start)) == if start < entry.len() {
            seq![entry.subrange(start, entry.len() as int)]
        } else {
            Seq::<Seq<char>>::empty()
        },
{
    let rest = entry.skip(start);
    if start < entry.len() {
        lemma_run_len(rest, rest.len() as int);
        assert(rest.take(rest.len() as int) =~= entry.subrange(start, entry.len() as int));
        assert(rest.skip(rest.len() as int).len() == 0);
        assert(segments(rest.skip(rest.len() as int)) =~= Seq::<Seq<char>>::empty());
    }
}

} // verus!
