//! What the parser reads back from a path that was written out.

use vstd::prelude::*;
use crate::compilation::{canonical_path, joined, lemma_joined_step};
use crate::parsing::{
    literal_fault, literal_fault_is_first, path_fault, path_spans, query_mark, query_names_of,
    query_spans, segment_at, segments_of, static_text, well_formed_when_parsed, NameView, Piece,
    SegmentView,
};
use crate::text::{cuts, lemma_fields_are, lemma_find_is, Span};

verus! {

/// The literal segments with the texts `texts`.
pub open spec fn statics(texts: Seq<Seq<char>>) -> Seq<Piece> {
    Seq::new(texts.len(), |i: int| Piece::Static(texts[i]))
}

/// The texts of `segments`, each taken as literal text.
pub open spec fn static_texts(segments: Seq<SegmentView>) -> Seq<Seq<char>> {
    Seq::new(segments.len(), |i: int| segments[i]->Static_0)
}

/// How far the first `i` of `texts` reach when they are written out.
pub open spec fn reach(texts: Seq<Seq<char>>, i: int) -> int {
    joined(statics(texts).take(i)).len() as int
}

/// Whether the place `k` lies in the stretch that the `i`-th text takes when
/// the texts are written out, the `/` before it counted in.
pub open spec fn owns(texts: Seq<Seq<char>>, i: int, k: int) -> bool {
    reach(texts, i) <= k < reach(texts, i + 1)
}

/// In the path written out from `texts`, the `i`-th text stands behind a
/// `/`, right after what the first `i` texts reach.
proof fn lemma_text_at(texts: Seq<Seq<char>>, i: int)
    requires
        0 <= i < texts.len(),
    ensures
        reach(texts, i + 1) == reach(texts, i) + 1 + texts[i].len(),
        reach(texts, i + 1) <= joined(statics(texts)).len(),
        joined(statics(texts))[reach(texts, i)] == '/',
        joined(statics(texts)).subrange(reach(texts, i) + 1, reach(texts, i + 1)) == texts[i],
{
    let pieces = statics(texts);
    let path = joined(pieces);
    lemma_joined_step(pieces, i);
    lemma_joined_prefix(pieces, i + 1);
    let upto = joined(pieces.take(i + 1));
    assert(upto == joined(pieces.take(i)) + seq!['/'] + texts[i]);
    assert(path[reach(texts, i)] == upto[reach(texts, i)]);
    assert(path.subrange(reach(texts, i) + 1, reach(texts, i + 1)) =~= texts[i]) by {
        assert forall|k: int| 0 <= k < texts[i].len() implies path[reach(texts, i) + 1 + k]
            == texts[i][k] by {
            assert(path[reach(texts, i) + 1 + k] == upto[reach(texts, i) + 1 + k]);
        }
    }
}

/// What the first `i` segments write out begins what all of them write out.
proof fn lemma_joined_prefix(pieces: Seq<Piece>, i: int)
    requires
        0 <= i <= pieces.len(),
    ensures
        joined(pieces.take(i)).len() <= joined(pieces).len(),
        joined(pieces).subrange(0, joined(pieces.take(i)).len() as int) == joined(pieces.take(i)),
    decreases pieces.len() - i,
{
    if i == pieces.len() {
        assert(pieces.take(i) =~= pieces);
        assert(joined(pieces).subrange(0, joined(pieces).len() as int) =~= joined(pieces));
    } else {
        lemma_joined_step(pieces, i);
        lemma_joined_prefix(pieces, i + 1);
        let next = joined(pieces.take(i + 1));
        let here = joined(pieces.take(i));
        assert(joined(pieces).subrange(0, here.len() as int) =~= here) by {
            assert forall|k: int| 0 <= k < here.len() implies joined(pieces)[k] == here[k] by {
                assert(joined(pieces).subrange(0, next.len() as int)[k] == next[k]);
            }
        }
    }
}

/// How far the texts reach grows with their number.
proof fn lemma_reach_grows(texts: Seq<Seq<char>>, i: int, j: int)
    requires
        0 <= i <= j <= texts.len(),
    ensures
        reach(texts, i) <= reach(texts, j),
        reach(texts, 0) == 0,
        reach(texts, texts.len() as int) == joined(statics(texts)).len(),
    decreases j - i,
{
    assert(statics(texts).take(0) =~= Seq::<Piece>::empty());
    assert(statics(texts).take(texts.len() as int) =~= statics(texts));
    if i < j {
        lemma_text_at(texts, j - 1);
        lemma_reach_grows(texts, i, j - 1);
    }
}

/// A path written out from literal segments is read back as it was: the
/// parser finds no fault in it, finds the same texts as literal segments in
/// the same order, and finds no query.
pub proof fn static_path_reads_back(texts: Seq<Seq<char>>)
    requires
        forall|i: int| 0 <= i < texts.len() ==> static_text(#[trigger] texts[i]),
        canonical_path(statics(texts)).len() <= usize::MAX,
    ensures
        literal_fault(canonical_path(statics(texts))) is None,
        segments_of(canonical_path(statics(texts))) == Seq::new(
            texts.len(),
            |i: int| SegmentView::Static(texts[i]),
        ),
        query_names_of(canonical_path(statics(texts))) == Seq::<NameView>::empty(),
{
    let path = canonical_path(statics(texts));
    let n = texts.len() as int;
    let want = Seq::new(texts.len(), |i: int| SegmentView::Static(texts[i]));
    if n == 0 {
        assert(path == seq!['/']);
        lemma_find_is(path, '?', 0, 1, 1);
        assert(path_spans(path) =~= Seq::<Span>::empty());
        assert(query_spans(path) =~= Seq::<Span>::empty());
    } else {
        assert(path == joined(statics(texts)));
        lemma_reach_grows(texts, 0, n);
        let spans = Seq::new(
            texts.len(),
            |i: int| Span { start: (reach(texts, i) + 1) as usize, end: reach(texts, i + 1) as usize },
        );
        assert forall|i: int| 0 <= i < n implies {
            &&& 0 <= reach(texts, i) < reach(texts, i + 1) <= path.len()
            &&& #[trigger] spans[i].start == reach(texts, i) + 1
            &&& spans[i].end == reach(texts, i + 1)
            &&& spans[i].of(path) == texts[i]
            &&& path[reach(texts, i)] == '/'
        } by {
            lemma_text_at(texts, i);
            lemma_reach_grows(texts, 0, i);
            lemma_reach_grows(texts, i + 1, n);
        }
        // No `?` anywhere, so the query begins at the end.
        assert forall|k: int| 0 <= k < path.len() implies path[k] != '?' by {
            lemma_owner(texts, k);
            let i = choose|i: int| 0 <= i < texts.len() && #[trigger] owns(texts, i, k);
            lemma_text_at(texts, i);
            if k > reach(texts, i) {
                assert(path[k] == spans[i].of(path)[k - reach(texts, i) - 1]);
            }
        }
        lemma_find_is(path, '?', 0, path.len() as int, path.len() as int);
        assert(query_mark(path) == path.len());
        assert(query_spans(path) =~= Seq::<Span>::empty());
        assert(path.len() > 1) by {
            assert(spans[0].start == 1);
        }
        assert(cuts(path, '/', 1, path.len() as int, spans)) by {
            assert(spans[0].start == 1);
            assert(spans.last() == spans[n - 1]);
            assert forall|i: int, k: int|
                0 <= i < spans.len() && (#[trigger] spans[i]).start <= k < spans[i].end implies #[trigger] path[k]
                != '/' by {
                assert(path[k] == spans[i].of(path)[k - spans[i].start]);
            }
        }
        lemma_fields_are(path, '/', 1, path.len() as int, spans);
        assert(path_spans(path) == spans);
        assert forall|i: int| 0 <= i < n implies segment_at(path, i) == SegmentView::Static(
            texts[i],
        ) && path_fault(path, i) is None by {
            assert(spans[i].of(path) == texts[i]);
        }
    }
    literal_fault_is_first(path);
    assert(segments_of(path) =~= want);
    assert(query_names_of(path) =~= Seq::<NameView>::empty());
}

/// Each place of a path written out from `texts` lies in the stretch of one
/// of them, the `/` before it counted in.
proof fn lemma_owner(texts: Seq<Seq<char>>, k: int)
    requires
        0 <= k < joined(statics(texts)).len(),
    ensures
        exists|i: int| 0 <= i < texts.len() && #[trigger] owns(texts, i, k),
    decreases texts.len(),
{
    lemma_reach_grows(texts, 0, texts.len() as int);
    lemma_owner_from(texts, k, texts.len() as int);
}

/// A place before what the first `j` texts reach lies in the stretch of one
/// of them.
proof fn lemma_owner_from(texts: Seq<Seq<char>>, k: int, j: int)
    requires
        0 <= j <= texts.len(),
        0 <= k < reach(texts, j),
    ensures
        exists|i: int| 0 <= i < texts.len() && #[trigger] owns(texts, i, k),
    decreases j,
{
    lemma_reach_grows(texts, 0, j);
    if j > 0 {
        if reach(texts, j - 1) <= k {
            assert(owns(texts, j - 1, k));
        } else {
            lemma_owner_from(texts, k, j - 1);
        }
    }
}

/// A route without captures and wildcards survives being written out and
/// read again: where the parser accepts `s` and finds only literal segments
/// in it, it accepts the path written out from them too, and finds the same
/// segments in it.
pub proof fn static_route_reads_back(s: Seq<char>)
    requires
        s.len() <= usize::MAX,
        literal_fault(s) is None,
        forall|i: int| 0 <= i < segments_of(s).len() ==> #[trigger] segments_of(s)[i] is Static,
        canonical_path(pieces_of(segments_of(s))).len() <= usize::MAX,
    ensures
        literal_fault(canonical_path(pieces_of(segments_of(s)))) is None,
        segments_of(canonical_path(pieces_of(segments_of(s)))) == segments_of(s),
{
    let segments = segments_of(s);
    let texts = static_texts(segments);
    well_formed_when_parsed(s);
    assert(pieces_of(segments) =~= statics(texts));
    assert forall|i: int| 0 <= i < texts.len() implies static_text(#[trigger] texts[i]) by {
        assert(segments[i] is Static);
        assert(segments[i] == segment_at(s, i));
    }
    static_path_reads_back(texts);
    assert(segments_of(canonical_path(statics(texts))) =~= segments);
}

/// The segments without regard to where they stand.
pub open spec fn pieces_of(segments: Seq<SegmentView>) -> Seq<Piece> {
    Seq::new(segments.len(), |i: int| segments[i].piece())
}

} // verus!
