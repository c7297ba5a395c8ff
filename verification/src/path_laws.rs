//! Laws of paths: what cutting a path apart and joining paths do to its components.

use vstd::prelude::*;

use crate::path::{
    body_spans, components, head_text, is_rooted, joined, lemma_body_spans_placed, lemma_piece_end,
    lemma_spans_placed, piece_end, same_path, spans, tail_text, under, DOT, SEPARATOR,
};

verus! {

/// A name ends where it did, or at the cut.
proof fn lemma_piece_end_take(text: Seq<u8>, from: int, cut: int)
    requires
        0 <= from <= cut <= text.len(),
    ensures
        piece_end(text.take(cut), from) == if piece_end(text, from) < cut {
            piece_end(text, from)
        } else {
            cut
        },
    decreases text.len() - from,
{
    lemma_piece_end(text, from);
    if from < cut && text[from] != SEPARATOR {
        lemma_piece_end_take(text, from + 1, cut);
    }
}

/// A name ends where it did, seen from further right.
proof fn lemma_piece_end_skip(text: Seq<u8>, offset: int, from: int)
    requires
        0 <= offset,
        0 <= from,
        offset + from <= text.len(),
    ensures
        piece_end(text.skip(offset), from) + offset == piece_end(text, offset + from),
    decreases text.len() - from,
{
    if offset + from < text.len() && text[offset + from] != SEPARATOR {
        lemma_piece_end_skip(text, offset, from + 1);
    }
}

/// Spans, seen from further left.
spec fn shifted(spans: Seq<(int, int)>, by: int) -> Seq<(int, int)> {
    spans.map_values(|s: (int, int)| (s.0 + by, s.1 + by))
}

proof fn lemma_body_spans_skip(text: Seq<u8>, offset: int, from: int, keep_dot: bool)
    requires
        0 <= offset <= text.len(),
        0 <= from,
    ensures
        shifted(body_spans(text.skip(offset), from, keep_dot), offset) == body_spans(
            text,
            offset + from,
            keep_dot,
        ),
    decreases text.len() + 1 - from,
{
    let rest = text.skip(offset);
    if offset + from < text.len() {
        lemma_piece_end_skip(text, offset, from);
        lemma_piece_end(rest, from);
        lemma_body_spans_skip(text, offset, piece_end(rest, from) + 1, false);
    }
    assert(shifted(body_spans(rest, from, keep_dot), offset) =~= body_spans(
        text,
        offset + from,
        keep_dot,
    ));
}

/// Cut at the end of a name, the text has the names up to that one.
proof fn lemma_body_spans_take(text: Seq<u8>, from: int, keep_dot: bool, n: int)
    requires
        0 <= from,
        0 < n <= body_spans(text, from, keep_dot).len(),
    ensures
        body_spans(text.take(body_spans(text, from, keep_dot)[n - 1].1), from, keep_dot)
            == body_spans(text, from, keep_dot).take(n),
    decreases text.len() + 1 - from,
{
    let all = body_spans(text, from, keep_dot);
    let cut = all[n - 1].1;
    lemma_body_spans_placed(text, from, keep_dot);
    lemma_piece_end(text, from);
    let end = piece_end(text, from);
    let rest = body_spans(text, end + 1, false);
    lemma_body_spans_placed(text, end + 1, false);
    let head = text.take(cut);
    if all == rest {
        assert(rest[n - 1].0 >= end + 1);
        lemma_piece_end_take(text, from, cut);
        lemma_body_spans_take(text, end + 1, false, n);
    } else {
        assert(all =~= seq![(from, end)] + rest);
        lemma_piece_end_take(text, from, cut);
        if n == 1 {
            assert(body_spans(head, end + 1, false) =~= seq![]);
            assert(body_spans(head, from, keep_dot) =~= all.take(1));
        } else {
            assert(all[n - 1] == rest[n - 2]);
            lemma_body_spans_take(text, end + 1, false, n - 1);
            assert(body_spans(head, from, keep_dot) =~= seq![(from, end)] + rest.take(n - 1));
            assert(all.take(n) =~= seq![(from, end)] + rest.take(n - 1));
        }
    }
}

/// From the start of a name on, the text has that name and those behind it.
proof fn lemma_body_spans_from(text: Seq<u8>, from: int, keep_dot: bool, n: int)
    requires
        0 <= from,
        0 <= n < body_spans(text, from, keep_dot).len(),
    ensures
        body_spans(text, body_spans(text, from, keep_dot)[n].0, true) == body_spans(
            text,
            from,
            keep_dot,
        ).skip(n),
        text[body_spans(text, from, keep_dot)[n].0] != SEPARATOR,
    decreases text.len() + 1 - from,
{
    let all = body_spans(text, from, keep_dot);
    lemma_piece_end(text, from);
    let end = piece_end(text, from);
    let rest = body_spans(text, end + 1, false);
    if all == rest {
        lemma_body_spans_from(text, end + 1, false, n);
    } else {
        assert(all =~= seq![(from, end)] + rest);
        if n == 0 {
            assert(all.skip(0) =~= all);
        } else {
            assert(all[n] == rest[n - 1]);
            lemma_body_spans_from(text, end + 1, false, n - 1);
            assert(all.skip(n) =~= rest.skip(n - 1));
        }
    }
}

/// Cut at the end of a component, the text has the components up to that one, where they were.
proof fn lemma_head_spans(text: Seq<u8>, n: int)
    requires
        0 < n <= spans(text).len(),
    ensures
        spans(head_text(text, n)) == spans(text).take(n),
{
    let head = head_text(text, n);
    lemma_spans_placed(text);
    if is_rooted(text) {
        let body = body_spans(text, 1, false);
        if n == 1 {
            assert(body_spans(head, 1, false) =~= seq![]);
        } else {
            assert(spans(text)[n - 1] == body[n - 2]);
            lemma_body_spans_take(text, 1, false, n - 1);
        }
        assert(spans(head) =~= spans(text).take(n));
    } else {
        lemma_body_spans_take(text, 0, true, n);
        assert(head[0] == text[0]);
    }
}

/// The path of the first components of a path has those components.
pub proof fn law_head_components(text: Seq<u8>, n: int)
    requires
        0 <= n <= components(text).len(),
    ensures
        components(head_text(text, n)) == components(text).take(n),
{
    let head = head_text(text, n);
    lemma_spans_placed(text);
    if n > 0 {
        lemma_head_spans(text, n);
    }
    assert(components(head) =~= components(text).take(n)) by {
        assert forall|i: int| 0 <= i < n implies #[trigger] components(head)[i] =~= components(
            text,
        )[i] by {
            assert(spans(head)[i] == spans(text)[i]);
        }
    }
}

/// What is left of a path behind its first components has the other components.
pub proof fn law_tail_components(text: Seq<u8>, n: int)
    requires
        0 <= n <= components(text).len(),
    ensures
        components(tail_text(text, n)) == components(text).skip(n),
        n > 0 ==> !is_rooted(tail_text(text, n)),
{
    let tail = tail_text(text, n);
    let count = components(text).len() as int;
    lemma_spans_placed(text);
    if n == count {
        assert(spans(tail) =~= seq![]);
        assert(components(tail) =~= components(text).skip(n));
    } else {
        let start = spans(text)[n].0;
        let end = spans(text).last().1;
        let head = text.take(end);
        assert(head =~= head_text(text, count));
        law_head_components(text, count);
        lemma_head_spans(text, count);
        assert(spans(head) =~= spans(text));
        assert(tail =~= head.skip(start));
        if n == 0 {
            lemma_first_start(text);
            assert(tail =~= head);
            assert(components(text).take(count) =~= components(text));
            assert(components(text).skip(0) =~= components(text));
        } else {
            if is_rooted(text) {
                lemma_body_spans_from(head, 1, false, n - 1);
                assert(spans(head)[n] == body_spans(head, 1, false)[n - 1]);
                assert(spans(head).skip(n) =~= body_spans(head, 1, false).skip(n - 1));
            } else {
                lemma_body_spans_from(head, 0, true, n);
            }
            lemma_body_spans_skip(head, start, 0, true);
            assert(shifted(spans(tail), start) == spans(text).skip(n));
            lemma_spans_placed(tail);
            assert(components(tail) =~= components(text).skip(n)) by {
                assert(spans(tail).len() == count - n);
                assert forall|i: int| 0 <= i < count - n implies #[trigger] components(tail)[i]
                    =~= components(text)[n + i] by {
                    assert(shifted(spans(tail), start)[i] == spans(text)[n + i]);
                }
            }
        }
    }
}

/// The first component starts the text.
proof fn lemma_first_start(text: Seq<u8>)
    requires
        spans(text).len() > 0,
    ensures
        spans(text)[0].0 == 0,
{
    if !is_rooted(text) {
        lemma_piece_end(text, 0);
    }
}

/// A separator behind the text changes no name.
proof fn lemma_body_spans_push(text: Seq<u8>, from: int, keep_dot: bool)
    requires
        0 <= from,
    ensures
        body_spans(text.push(SEPARATOR), from, keep_dot) == body_spans(text, from, keep_dot),
    decreases text.len() + 1 - from,
{
    let longer = text.push(SEPARATOR);
    if from < text.len() {
        lemma_piece_end(text, from);
        lemma_piece_end_take(longer, from, text.len() as int);
        assert(longer.take(text.len() as int) =~= text);
        lemma_piece_end(longer, from);
        if piece_end(longer, from) > text.len() {
            assert(longer[text.len() as int] != SEPARATOR);
        }
        lemma_body_spans_push(text, piece_end(text, from) + 1, false);
    } else if from == text.len() {
        assert(piece_end(longer, from) == from);
        assert(body_spans(longer, from + 1, false) =~= seq![]);
    }
}

/// Behind a separator, the names of the second text follow those of the first.
proof fn lemma_body_spans_concat(first: Seq<u8>, second: Seq<u8>, from: int, keep_dot: bool)
    requires
        first.len() > 0,
        first.last() == SEPARATOR,
        0 <= from <= first.len(),
        from == first.len() ==> !keep_dot,
    ensures
        body_spans(first + second, from, keep_dot) == body_spans(first, from, keep_dot) + shifted(
            body_spans(second, 0, false),
            first.len() as int,
        ),
    decreases first.len() - from,
{
    let both = first + second;
    let len = first.len() as int;
    let rest = shifted(body_spans(second, 0, false), len);
    if from == len {
        assert(both.skip(len) =~= second);
        lemma_body_spans_skip(both, len, 0, false);
        assert(body_spans(first, from, keep_dot) + rest =~= rest);
    } else {
        lemma_piece_end(first, from);
        lemma_piece_end_take(both, from, len);
        lemma_piece_end(both, from);
        assert(both.take(len) =~= first);
        let end = piece_end(first, from);
        assert(end < len) by {
            if end == len {
                assert(first[len - 1] != SEPARATOR);
            }
        }
        assert(both[from] == first[from]);
        assert(piece_end(both, from) == end);
        lemma_body_spans_concat(first, second, end + 1, false);
        assert(body_spans(both, from, keep_dot) =~= body_spans(first, from, keep_dot) + rest);
    }
}

/// A path joined below another one has the components of both, except that the `.` at the start
/// of the second is dropped, and that a second path from the root stands alone.
pub proof fn law_join_components(base: Seq<u8>, relative: Seq<u8>)
    ensures
        is_rooted(relative) || base.len() == 0 ==> components(joined(base, relative))
            == components(relative),
        !is_rooted(relative) && base.len() > 0 ==> components(joined(base, relative))
            == components(base) + if components(relative).len() > 0 && components(relative)[0]
            == seq![DOT] {
            components(relative).skip(1)
        } else {
            components(relative)
        },
{
    if is_rooted(relative) {
    } else if base.len() == 0 {
        assert(joined(base, relative) =~= relative);
    } else {
        let first = if base.last() != SEPARATOR {
            base.push(SEPARATOR)
        } else {
            base
        };
        let both = joined(base, relative);
        let len = first.len() as int;
        assert(both =~= first + relative);
        let rest = body_spans(relative, 0, false);
        // The names of the first text.
        assert(spans(first) == spans(base)) by {
            assert(first[0] == base[0]);
            if base.last() != SEPARATOR {
                lemma_body_spans_push(base, 0, true);
                lemma_body_spans_push(base, 1, false);
            }
        }
        assert(both[0] == first[0]);
        if is_rooted(base) {
            lemma_body_spans_concat(first, relative, 1, false);
        } else {
            lemma_body_spans_concat(first, relative, 0, true);
        }
        assert(spans(both) =~= spans(base) + shifted(rest, len));
        // The names of the second text.
        let own = spans(relative);
        lemma_spans_placed(relative);
        lemma_spans_placed(base);
        lemma_piece_end(relative, 0);
        let dotted = components(relative).len() > 0 && components(relative)[0] == seq![DOT];
        if dotted {
            lemma_first_start(relative);
            assert(components(relative)[0].len() == 1);
            assert(components(relative)[0][0] == DOT);
            assert(relative[0] == DOT);
            assert(own =~= seq![(0int, piece_end(relative, 0))] + body_spans(
                relative,
                piece_end(relative, 0) + 1,
                false,
            ));
            assert(rest =~= own.skip(1));
        } else {
            assert(rest =~= own) by {
                if relative.len() > 0 && piece_end(relative, 0) == 1 && relative[0] == DOT {
                    assert(own[0] == (0int, 1int));
                    assert(components(relative)[0] =~= seq![DOT]);
                }
            }
        }
        let tail = if dotted {
            components(relative).skip(1)
        } else {
            components(relative)
        };
        assert(components(both) =~= components(base) + tail) by {
            let count = spans(base).len() as int;
            assert forall|i: int| 0 <= i < count + rest.len() implies #[trigger] components(both)[i]
                =~= (components(base) + tail)[i] by {
                if i < count {
                    assert(spans(both)[i] == spans(base)[i]);
                } else {
                    assert(spans(both)[i] == shifted(rest, len)[i - count]);
                    assert(components(both)[i] =~= tail[i - count]);
                }
            }
        }
    }
}

/// Only the first name can be `.`, and only where that is kept.
proof fn lemma_no_dot(text: Seq<u8>, from: int, keep_dot: bool, n: int)
    requires
        0 <= from,
        0 <= n < body_spans(text, from, keep_dot).len(),
        n > 0 || !keep_dot,
    ensures
        text.subrange(
            body_spans(text, from, keep_dot)[n].0,
            body_spans(text, from, keep_dot)[n].1,
        ) != seq![DOT],
    decreases text.len() + 1 - from,
{
    let all = body_spans(text, from, keep_dot);
    lemma_piece_end(text, from);
    let end = piece_end(text, from);
    let rest = body_spans(text, end + 1, false);
    lemma_body_spans_placed(text, from, keep_dot);
    if all == rest {
        lemma_no_dot(text, end + 1, false, n);
    } else if n == 0 {
        assert(all[0] == (from, end));
        let name = text.subrange(from, end);
        if name == seq![DOT] {
            assert(name.len() == 1);
            assert(name[0] == text[from]);
        }
    } else {
        assert(all[n] == rest[n - 1]);
        lemma_no_dot(text, end + 1, false, n - 1);
    }
}

/// Behind the first component of a path, no component is `.`.
pub proof fn law_dot_comes_first(text: Seq<u8>, n: int)
    requires
        0 < n < components(text).len(),
    ensures
        components(text)[n] != seq![DOT],
{
    if is_rooted(text) {
        assert(spans(text)[n] == body_spans(text, 1, false)[n - 1]);
        lemma_no_dot(text, 1, false, n - 1);
    } else {
        lemma_no_dot(text, 0, true, n);
    }
}

/// A path starts at the root exactly if the root is its first component.
pub proof fn law_root_component(text: Seq<u8>)
    ensures
        is_rooted(text) <==> components(text).len() > 0 && components(text)[0] == seq![SEPARATOR],
{
    if is_rooted(text) {
        assert(spans(text)[0] == (0int, 1int));
        assert(components(text)[0] =~= seq![SEPARATOR]);
    } else if components(text).len() > 0 {
        lemma_spans_placed(text);
        lemma_first_start(text);
        assert(components(text)[0][0] == text[0]);
    }
}

/// A text without a separator is one component, or none if it is empty.
pub proof fn law_components_of_a_name(name: Seq<u8>)
    requires
        forall|i: int| 0 <= i < name.len() ==> #[trigger] name[i] != 0x2f,
    ensures
        name.len() == 0 ==> components(name) == Seq::<Seq<u8>>::empty(),
        name.len() > 0 ==> components(name) == seq![name],
{
    if name.len() == 0 {
        assert(components(name) =~= seq![]);
    } else {
        assert(name[0] != 0x2f);
        lemma_piece_end(name, 0);
        assert(piece_end(name, 0) == name.len());
        assert(body_spans(name, name.len() as int + 1, false) =~= seq![]);
        assert(spans(name) =~= seq![(0int, name.len() as int)]);
        assert(name.subrange(0, name.len() as int) =~= name);
        assert(components(name) =~= seq![name]);
    }
}

/// A lone separator is the root.
pub proof fn law_components_of_the_root()
    ensures
        components(seq![0x2fu8]) == seq![seq![0x2fu8]],
{
    let root = seq![0x2fu8];
    assert(body_spans(root, 1, false) =~= seq![]);
    assert(spans(root) =~= seq![(0int, 1int)]);
    assert(root.subrange(0, 1) =~= root);
    assert(components(root) =~= seq![root]);
}

/// A separator at the end of a path adds no component.
pub proof fn law_separator_at_the_end(text: Seq<u8>)
    requires
        text.len() > 0,
    ensures
        components(text.push(0x2f)) == components(text),
{
    let longer = text.push(0x2f);
    assert(longer[0] == text[0]);
    lemma_body_spans_push(text, 0, true);
    if is_rooted(text) {
        lemma_body_spans_push(text, 1, false);
    }
    assert(spans(longer) == spans(text));
    lemma_spans_placed(text);
    assert(components(longer) =~= components(text)) by {
        assert forall|i: int| 0 <= i < components(text).len() implies #[trigger] components(
            longer,
        )[i] =~= components(text)[i] by {
            assert(spans(longer)[i] == spans(text)[i]);
        }
    }
}

/// A name behind a separator is one component more, unless it is `.`. With the laws on a lone name,
/// a lone separator and a separator at the end, this tells the components of every text.
pub proof fn law_name_behind_a_separator(text: Seq<u8>, name: Seq<u8>)
    requires
        text.len() > 0,
        text.last() == 0x2f,
        name.len() > 0,
        forall|i: int| 0 <= i < name.len() ==> #[trigger] name[i] != 0x2f,
    ensures
        name == seq![0x2eu8] ==> components(text + name) == components(text),
        name != seq![0x2eu8] ==> components(text + name) == components(text).push(name),
{
    assert(name[0] != 0x2f);
    law_components_of_a_name(name);
    law_join_components(text, name);
    assert(joined(text, name) == text + name);
    assert(components(name)[0] == name);
    if name == seq![0x2eu8] {
        assert(components(text) + components(name).skip(1) =~= components(text));
    } else {
        assert(components(text) + components(name) =~= components(text).push(name));
    }
}

/// The text of a joined path: the second alone where it starts at the root, else both, with one
/// separator between them where the first does not end in one.
pub proof fn law_join_text(base: Seq<u8>, relative: Seq<u8>)
    ensures
        relative.len() > 0 && relative[0] == 0x2f ==> joined(base, relative) == relative,
        !(relative.len() > 0 && relative[0] == 0x2f) ==> {
            let both = joined(base, relative);
            let gap: int = if base.len() > 0 && base.last() != 0x2f {
                1
            } else {
                0
            };
            &&& both.len() == base.len() + gap + relative.len()
            &&& both.take(base.len() as int) == base
            &&& both.skip(base.len() + gap) == relative
            &&& gap == 1 ==> both[base.len() as int] == 0x2f
        },
{
    let both = joined(base, relative);
    if !(relative.len() > 0 && relative[0] == 0x2f) {
        let gap: int = if base.len() > 0 && base.last() != 0x2f {
            1
        } else {
            0
        };
        assert(both.take(base.len() as int) =~= base);
        assert(both.skip(base.len() + gap) =~= relative);
    }
}

/// One path is at or below another exactly if it starts with all components of the other, and two
/// paths are the same exactly if they have the same components.
pub proof fn law_below_by_components(text: Seq<u8>, base: Seq<u8>)
    ensures
        under(text, base) <==> {
            &&& components(base).len() <= components(text).len()
            &&& forall|i: int|
                0 <= i < components(base).len() ==> #[trigger] components(text)[i] == components(
                    base,
                )[i]
        },
        same_path(text, base) <==> components(text) == components(base),
        same_path(text, base) <==> under(text, base) && under(base, text),
{
    if components(base).len() <= components(text).len() && (forall|i: int|
        0 <= i < components(base).len() ==> #[trigger] components(text)[i] == components(base)[i]) {
        assert(components(base) =~= components(text).subrange(0, components(base).len() as int));
    }
    if under(text, base) && under(base, text) {
        assert(components(text) =~= components(base));
    }
}

/// The span holds no separator.
spec fn is_clean(text: Seq<u8>, span: (int, int)) -> bool {
    forall|j: int| span.0 <= j < span.1 ==> #[trigger] text[j] != SEPARATOR
}

/// No name holds a separator.
proof fn lemma_names_are_clean(text: Seq<u8>, from: int, keep_dot: bool)
    requires
        0 <= from,
    ensures
        forall|i: int|
            0 <= i < body_spans(text, from, keep_dot).len() ==> is_clean(
                text,
                #[trigger] body_spans(text, from, keep_dot)[i],
            ),
    decreases text.len() + 1 - from,
{
    if from < text.len() {
        lemma_piece_end(text, from);
        let end = piece_end(text, from);
        lemma_names_are_clean(text, end + 1, false);
        let rest = body_spans(text, end + 1, false);
        let all = body_spans(text, from, keep_dot);
        assert(all == rest || all == seq![(from, end)] + rest);
        if all != rest {
            assert forall|i: int| 0 <= i < all.len() implies is_clean(text, #[trigger] all[i]) by {
                if i > 0 {
                    assert(all[i] == rest[i - 1]);
                }
            }
        }
    }
}

/// No component holds a separator, except that the root is one; none is empty.
pub proof fn law_components_are_names(text: Seq<u8>, i: int)
    requires
        0 <= i < components(text).len(),
    ensures
        components(text)[i].len() > 0,
        components(text)[i] == seq![0x2fu8] <==> i == 0 && text[0] == 0x2f,
        components(text)[i] != seq![0x2fu8] ==> forall|j: int|
            0 <= j < components(text)[i].len() ==> #[trigger] components(text)[i][j] != 0x2f,
{
    lemma_spans_placed(text);
    let name = components(text)[i];
    let (start, end) = spans(text)[i];
    assert(name == text.subrange(start, end));
    if i == 0 && text[0] == 0x2f {
        law_root_component(text);
    } else {
        if is_rooted(text) {
            lemma_names_are_clean(text, 1, false);
            assert(spans(text)[i] == body_spans(text, 1, false)[i - 1]);
        } else {
            lemma_names_are_clean(text, 0, true);
        }
        assert(is_clean(text, spans(text)[i]));
        assert forall|j: int| 0 <= j < name.len() implies #[trigger] name[j] != 0x2f by {
            assert(name[j] == text[start + j]);
        }
        assert(name[0] != 0x2f);
    }
}

/// The path of the first components is the start of the text, up to the end of the last of them.
pub proof fn law_head_text(text: Seq<u8>, n: int)
    requires
        0 < n <= components(text).len(),
    ensures
        head_text(text, n).len() <= text.len(),
        head_text(text, n) == text.take(head_text(text, n).len() as int),
        head_text(text, n).len() >= components(text)[n - 1].len(),
        head_text(text, n).skip(head_text(text, n).len() - components(text)[n - 1].len())
            == components(text)[n - 1],
{
    lemma_spans_placed(text);
    let (start, end) = spans(text)[n - 1];
    let head = head_text(text, n);
    assert(head =~= text.take(end));
    assert(components(text)[n - 1] == text.subrange(start, end));
    assert(head.skip(start) =~= text.subrange(start, end));
}

/// What is left behind the first components is the text from the start of the next component to the
/// end of the last one.
pub proof fn law_tail_text(text: Seq<u8>, n: int)
    requires
        0 <= n < components(text).len(),
    ensures
        exists|from: int|
            {
                &&& 0 <= from
                &&& from + tail_text(text, n).len() <= text.len()
                &&& tail_text(text, n) == #[trigger] text.subrange(
                    from,
                    from + tail_text(text, n).len(),
                )
            },
        tail_text(text, n).len() >= components(text)[n].len(),
        tail_text(text, n).take(components(text)[n].len() as int) == components(text)[n],
        tail_text(text, n).skip(tail_text(text, n).len() - components(text).last().len())
            == components(text).last(),
{
    lemma_spans_placed(text);
    let count = spans(text).len();
    let (start, first_end) = spans(text)[n];
    let (last_start, end) = spans(text)[count - 1];
    let tail = tail_text(text, n);
    assert(tail == text.subrange(start, start + tail.len()));
    assert(components(text)[n] == text.subrange(start, first_end));
    assert(components(text).last() == text.subrange(last_start, end));
    if n < count - 1 {
        assert(first_end <= last_start);
    }
    assert(tail.take(first_end - start) =~= text.subrange(start, first_end));
    assert(tail.skip(last_start - start) =~= text.subrange(last_start, end));
}

/// A path joined below a base that is not empty lies at or below it.
pub proof fn law_join_goes_below(base: Seq<u8>, relative: Seq<u8>)
    requires
        base.len() > 0,
        !(relative.len() > 0 && relative[0] == 0x2f),
    ensures
        under(joined(base, relative), base),
{
    law_join_components(base, relative);
}

} // verus!
