//! What holds of every route that is bound to a handler.

use vstd::prelude::*;
use crate::compilation::{
    bind_segment, binding_failure, bound_names, canonical_path, compiled, first_unbound,
    guess_state, idents, path_bindings, path_names, positional_name, unbound, BindingSource,
    CompiledView, PathParamView,
};
use crate::parsing::{
    parse_route, query_names_of, segments_of, NameView, RouteView, SegmentView,
};
use crate::text::decimal_is_injective;
use crate::round_trip::pieces_of;
use crate::signature::{lemma_last_named, pool_of, ParamView, SlotView};
use crate::type_expr::unit_type;

verus! {

/// The texts of `names`, in order.
pub open spec fn texts(names: Seq<NameView>) -> Seq<Seq<char>> {
    Seq::new(names.len(), |i: int| names[i].text)
}

/// `first_unbound` gives a place from `from` on, at which no parameter is
/// left if it is a place among the names, and before which, from `from` on,
/// every name finds one.
proof fn lemma_first_unbound_is(names: Seq<NameView>, pool: Map<Seq<char>, SlotView>, from: int)
    requires
        0 <= from <= names.len(),
    ensures
        from <= first_unbound(names, pool, from) <= names.len(),
        first_unbound(names, pool, from) < names.len() ==> unbound(
            names,
            pool,
            first_unbound(names, pool, from),
        ),
        forall|j: int| from <= j < first_unbound(names, pool, from) ==> !unbound(names, pool, j),
    decreases names.len() - from,
{
    if from < names.len() && !unbound(names, pool, from) {
        lemma_first_unbound_is(names, pool, from + 1);
    }
}

/// Binding fails at the first name, in binding order, for which no
/// parameter is left, and succeeds where there is no such name. A name
/// finds no parameter where the handler has none of that name, or where an
/// earlier name of the route is the same and has taken it.
pub proof fn binding_fails_at_first_unbound(route: RouteView, params: Seq<ParamView>)
    ensures
        binding_failure(route, params) is None <==> forall|k: int|
            0 <= k < bound_names(route).len() ==> !unbound(
                bound_names(route),
                pool_of(params),
                k,
            ),
        binding_failure(route, params) matches Some(e) ==> exists|k: int|
            {
                &&& 0 <= k < bound_names(route).len()
                &&& #[trigger] unbound(bound_names(route), pool_of(params), k)
                &&& forall|j: int| 0 <= j < k ==> !unbound(bound_names(route), pool_of(params), j)
                &&& e.name == bound_names(route)[k].text
                &&& e.span == bound_names(route)[k].span
                &&& e.source == if k < path_names(route.segments).len() {
                    BindingSource::Path
                } else {
                    BindingSource::Query
                }
            },
{
    let names = bound_names(route);
    let pool = pool_of(params);
    lemma_first_unbound_is(names, pool, 0);
    let k = first_unbound(names, pool, 0);
    if k < names.len() {
        assert(unbound(names, pool, k));
    }
}

/// A name that stands twice in a route fails the binding: the parameter
/// that the first takes is gone when the second looks for it. So a name in
/// the path and again in the query never binds twice.
pub proof fn repeated_name_fails(route: RouteView, params: Seq<ParamView>, j: int, k: int)
    requires
        0 <= j < k < bound_names(route).len(),
        bound_names(route)[j].text == bound_names(route)[k].text,
    ensures
        binding_failure(route, params) is Some,
{
    binding_fails_at_first_unbound(route, params);
    assert(unbound(bound_names(route), pool_of(params), k));
}

/// A name of a route that no parameter of the handler is bound to fails the
/// binding.
pub proof fn missing_name_fails(route: RouteView, params: Seq<ParamView>, k: int)
    requires
        0 <= k < bound_names(route).len(),
        forall|i: int|
            0 <= i < params.len() ==> (#[trigger] params[i]).name != Some(
                bound_names(route)[k].text,
            ),
    ensures
        binding_failure(route, params) is Some,
{
    binding_fails_at_first_unbound(route, params);
    lemma_last_named(params, bound_names(route)[k].text, params.len() as int);
    assert(unbound(bound_names(route), pool_of(params), k));
}

/// The names that a bound path holds are the names that the path declares.
proof fn lemma_bound_path_names(
    segments: Seq<SegmentView>,
    pool: Map<Seq<char>, SlotView>,
    bound: Seq<PathParamView>,
)
    requires
        bound.len() == segments.len(),
        forall|i: int| 0 <= i < segments.len() ==> bound[i] == bind_segment(segments[i], pool),
        forall|i: int|
            0 <= i < segments.len() && segments[i].declared_text() is Some ==> pool[segments[i].declared_text()->Some_0].ident
                == segments[i].declared_text()->Some_0,
    ensures
        idents(path_bindings(bound)) == texts(path_names(segments)),
    decreases segments.len(),
{
    if segments.len() == 0 {
        assert(idents(path_bindings(bound)) =~= texts(path_names(segments)));
    } else {
        let n = segments.len() - 1;
        lemma_bound_path_names(segments.drop_last(), pool, bound.drop_last());
        assert(bound.last() == bind_segment(segments.last(), pool));
        let before = path_bindings(bound.drop_last());
        let names = path_names(segments.drop_last());
        assert(idents(before) == texts(names));
        match segments.last() {
            SegmentView::Static(_) => {},
            SegmentView::Capture(name) => {
                assert(segments[n].declared_text() == Some(name.text));
                assert(path_bindings(bound) == before.push(pool[name.text]));
                assert(path_names(segments) == names.push(name));
                assert(idents(before.push(pool[name.text])) =~= idents(before).push(name.text));
                assert(texts(names.push(name)) =~= texts(names).push(name.text));
            },
            SegmentView::Wildcard(name) => {
                assert(segments[n].declared_text() == Some(name.text));
                assert(path_bindings(bound) == before.push(pool[name.text]));
                assert(path_names(segments) == names.push(name));
                assert(idents(before.push(pool[name.text])) =~= idents(before).push(name.text));
                assert(texts(names.push(name)) =~= texts(names).push(name.text));
            },
        }
    }
}

/// Every name of a path stands among the names that the route binds.
proof fn lemma_declared_is_bound(route: RouteView, i: int) -> (k: int)
    requires
        0 <= i < route.segments.len(),
        route.segments[i].declared() is Some,
    ensures
        0 <= k < path_names(route.segments).len(),
        bound_names(route)[k] == route.segments[i].declared()->Some_0,
{
    lemma_name_place(route.segments, i)
}

/// The name that the `i`-th segment declares stands among the names of the
/// path.
proof fn lemma_name_place(segments: Seq<SegmentView>, i: int) -> (k: int)
    requires
        0 <= i < segments.len(),
        segments[i].declared() is Some,
    ensures
        0 <= k < path_names(segments).len(),
        path_names(segments)[k] == segments[i].declared()->Some_0,
    decreases segments.len(),
{
    if i == segments.len() - 1 {
        path_names(segments).len() - 1
    } else {
        let k = lemma_name_place(segments.drop_last(), i);
        k
    }
}

/// A bound route keeps the order of the route: its path has the segments of
/// the route in their order, each a literal, capture or wildcard as before
/// and under the same name, and its query bindings have the names of the
/// query in their order. So the path that is written out, the bindings of
/// the path and those of the query follow the text of the route.
pub proof fn order_is_kept(route: RouteView, params: Seq<ParamView>)
    requires
        binding_failure(route, params) is None,
    ensures
        compiled(route, params).pieces() == pieces_of(route.segments),
        idents(path_bindings(compiled(route, params).path_params)) == texts(
            path_names(route.segments),
        ),
        idents(compiled(route, params).query_params) == texts(route.query),
        compiled(route, params).extraction_order() == texts(bound_names(route)),
{
    let c = compiled(route, params);
    let pool = pool_of(params);
    let names = bound_names(route);
    binding_fails_at_first_unbound(route, params);
    assert forall|i: int|
        0 <= i < route.segments.len() && route.segments[i].declared_text() is Some implies pool[route.segments[i].declared_text()->Some_0].ident
        == route.segments[i].declared_text()->Some_0 by {
        let k = lemma_declared_is_bound(route, i);
        assert(!unbound(names, pool, k));
    }
    assert(c.pieces() =~= pieces_of(route.segments));
    lemma_bound_path_names(route.segments, pool, c.path_params);
    assert forall|i: int| 0 <= i < route.query.len() implies c.query_params[i].ident
        == route.query[i].text by {
        let k = path_names(route.segments).len() + i;
        assert(names[k] == route.query[i]);
        assert(!unbound(names, pool, k));
    }
    assert(idents(c.query_params) =~= texts(route.query));
    assert(c.extraction_order() =~= texts(names));
}

/// No parameter is bound twice: the names under which a bound route
/// extracts are pairwise different.
pub proof fn no_parameter_is_bound_twice(route: RouteView, params: Seq<ParamView>)
    requires
        binding_failure(route, params) is None,
    ensures
        compiled(route, params).extraction_order().no_duplicates(),
{
    order_is_kept(route, params);
    binding_fails_at_first_unbound(route, params);
    let names = bound_names(route);
    let order = compiled(route, params).extraction_order();
    assert forall|j: int, k: int| 0 <= j < k < order.len() implies order[j] != order[k] by {
        assert(!unbound(names, pool_of(params), k));
        assert(order[j] == names[j].text);
        assert(order[k] == names[k].text);
    }
}

/// The state type does not depend on what the route binds: it is the type
/// that the route names, and where it names none, what the first parameter
/// with a type written as `State<T>` wraps, bound or not, and the unit type
/// where the handler has no such parameter.
pub proof fn state_is_settled_apart(route: RouteView, params: Seq<ParamView>)
    ensures
        route.state is Some ==> compiled(route, params).state == route.state->Some_0,
        route.state is None ==> compiled(route, params).state == guess_state(params, 0),
        (forall|i: int| 0 <= i < params.len() ==> (#[trigger] params[i]).ty.state_argument() is None)
            ==> guess_state(params, 0) == unit_type(),
        forall|i: int|
            0 <= i < params.len() && (#[trigger] params[i]).ty.state_argument() is Some && (
            forall|j: int| 0 <= j < i ==> (#[trigger] params[j]).ty.state_argument() is None)
                ==> guess_state(params, 0) == params[i].ty.state_argument()->Some_0,
{
    if forall|i: int| 0 <= i < params.len() ==> (#[trigger] params[i]).ty.state_argument() is None {
        lemma_guess_skips(params, 0, params.len() as int);
    }
    assert forall|i: int|
        0 <= i < params.len() && (#[trigger] params[i]).ty.state_argument() is Some && (forall|
            j: int,
        | 0 <= j < i ==> (#[trigger] params[j]).ty.state_argument() is None) implies guess_state(
        params,
        0,
    ) == params[i].ty.state_argument()->Some_0 by {
        lemma_guess_skips(params, 0, i);
    }
}

/// Parameters whose type wraps no state do not change the guess.
proof fn lemma_guess_skips(params: Seq<ParamView>, from: int, to: int)
    requires
        0 <= from <= to <= params.len(),
        forall|j: int| from <= j < to ==> (#[trigger] params[j]).ty.state_argument() is None,
    ensures
        guess_state(params, from) == guess_state(params, to),
    decreases to - from,
{
    if from < to {
        lemma_guess_skips(params, from + 1, to);
    }
}

/// From the text of a route to what is written out and extracted, the
/// order stands: where a route parses and binds, the path that is written
/// out is the one of the segments in the text, in their order, and the
/// query bindings carry the query names of the text, in their order.
pub proof fn route_keeps_order(
    keyword: Seq<char>,
    literal: Seq<char>,
    state: Option<crate::type_expr::TypeModel>,
    params: Seq<ParamView>,
)
    requires
        parse_route(keyword, literal, state) is Ok,
        binding_failure(parse_route(keyword, literal, state)->Ok_0, params) is None,
    ensures
        canonical_path(
            compiled(parse_route(keyword, literal, state)->Ok_0, params).pieces(),
        ) == canonical_path(pieces_of(segments_of(literal))),
        idents(compiled(parse_route(keyword, literal, state)->Ok_0, params).query_params)
            == texts(query_names_of(literal)),
{
    let route = parse_route(keyword, literal, state)->Ok_0;
    order_is_kept(route, params);
}

/// No two places have one positional name.
pub proof fn positional_names_differ(i: nat, j: nat)
    requires
        i != j,
    ensures
        positional_name(i) != positional_name(j),
{
    decimal_is_injective(i, j);
    let prefix = "___arg___"@;
    if positional_name(i) == positional_name(j) {
        assert(positional_name(i).skip(prefix.len() as int) =~= crate::text::decimal(i));
        assert(positional_name(j).skip(prefix.len() as int) =~= crate::text::decimal(j));
    }
}

/// Each of the parameters that are left stands under the name of a place
/// among `args`, and a later one under the name of a later place.
proof fn lemma_remaining_places(c: CompiledView, args: Seq<ParamView>)
    ensures
        forall|a: int|
            0 <= a < c.remaining(args).len() ==> 0 <= #[trigger] place_of(c, args, a)
                < args.len() && c.remaining(args)[a].pat == positional_name(
                place_of(c, args, a) as nat,
            ) && c.remaining(args)[a].ty == args[place_of(c, args, a)].ty && c.remaining(
                args,
            )[a].index == place_of(c, args, a) && !c.takes(place_of(c, args, a)),
        forall|a: int, b: int|
            0 <= a < b < c.remaining(args).len() ==> #[trigger] place_of(c, args, a)
                < #[trigger] place_of(c, args, b),
    decreases args.len(),
{
    if args.len() > 0 {
        lemma_remaining_places(c, args.drop_last());
        let rest = c.remaining(args.drop_last());
        assert forall|a: int| 0 <= a < rest.len() implies place_of(c, args, a) == place_of(
            c,
            args.drop_last(),
            a,
        ) by {
            lemma_place_of_stays(c, args, a);
        }
    }
}

/// The place among `args` of the `a`-th parameter that is left.
pub open spec fn place_of(c: CompiledView, args: Seq<ParamView>, a: int) -> int
    decreases args.len(),
{
    if args.len() == 0 {
        -1
    } else if a < c.remaining(args.drop_last()).len() {
        place_of(c, args.drop_last(), a)
    } else {
        args.len() - 1
    }
}

/// The place of a parameter that is left does not move when a parameter is
/// added behind.
proof fn lemma_place_of_stays(c: CompiledView, args: Seq<ParamView>, a: int)
    requires
        args.len() > 0,
        0 <= a < c.remaining(args.drop_last()).len(),
    ensures
        place_of(c, args, a) == place_of(c, args.drop_last(), a),
{
}

/// The parameters that are left are the parameters that the route has not
/// bound, in the order of the handler, each with its own type and under the
/// name of its place; so no two of them have one name.
pub proof fn remaining_keeps_order(c: CompiledView, args: Seq<ParamView>)
    ensures
        forall|a: int|
            0 <= a < c.remaining(args).len() ==> 0 <= #[trigger] place_of(c, args, a)
                < args.len() && c.remaining(args)[a].pat == positional_name(
                place_of(c, args, a) as nat,
            ) && c.remaining(args)[a].ty == args[place_of(c, args, a)].ty && c.remaining(
                args,
            )[a].index == place_of(c, args, a) && !c.takes(place_of(c, args, a)),
        forall|a: int, b: int|
            0 <= a < b < c.remaining(args).len() ==> #[trigger] place_of(c, args, a)
                < #[trigger] place_of(c, args, b),
        forall|a: int, b: int|
            0 <= a < b < c.remaining(args).len() ==> (#[trigger] c.remaining(args)[a]).pat != (
            #[trigger] c.remaining(args)[b]).pat,
        forall|i: int|
            0 <= i < args.len() && !(#[trigger] c.takes(i)) ==> exists|a: int|
                0 <= a < c.remaining(args).len() && #[trigger] place_of(c, args, a) == i,
{
    lemma_remaining_places(c, args);
    assert forall|a: int, b: int| 0 <= a < b < c.remaining(args).len() implies (
    #[trigger] c.remaining(args)[a]).pat != (#[trigger] c.remaining(args)[b]).pat by {
        assert(place_of(c, args, a) < place_of(c, args, b));
        positional_names_differ(place_of(c, args, a) as nat, place_of(c, args, b) as nat);
    }
    assert forall|i: int| 0 <= i < args.len() && !(#[trigger] c.takes(i)) implies exists|
        a: int,
    | 0 <= a < c.remaining(args).len() && #[trigger] place_of(c, args, a) == i by {
        lemma_kept_is_left(c, args, i);
    }
}

/// A parameter that the route has not bound is among those that are left.
proof fn lemma_kept_is_left(c: CompiledView, args: Seq<ParamView>, i: int)
    requires
        0 <= i < args.len(),
        !c.takes(i),
    ensures
        exists|a: int| 0 <= a < c.remaining(args).len() && #[trigger] place_of(c, args, a) == i,
    decreases args.len(),
{
    let rest = c.remaining(args.drop_last());
    if i == args.len() - 1 {
        assert(place_of(c, args, rest.len() as int) == i);
    } else {
        lemma_kept_is_left(c, args.drop_last(), i);
        let a = choose|a: int|
            0 <= a < rest.len() && #[trigger] place_of(c, args.drop_last(), a) == i;
        lemma_place_of_stays(c, args, a);
        assert(place_of(c, args, a) == i);
    }
}

/// What a bound route has bound is what the route names: a parameter is
/// bound exactly if its name stands in the path or in the query.
pub proof fn bound_is_named(route: RouteView, params: Seq<ParamView>, name: Seq<char>)
    requires
        binding_failure(route, params) is None,
    ensures
        compiled(route, params).consumed(name) <==> exists|k: int|
            0 <= k < bound_names(route).len() && (#[trigger] bound_names(route)[k]).text == name,
{
    let c = compiled(route, params);
    let names = bound_names(route);
    let pool = pool_of(params);
    binding_fails_at_first_unbound(route, params);
    let count = path_names(route.segments).len() as int;
    if c.consumed(name) {
        if exists|i: int|
            0 <= i < c.path_params.len() && (#[trigger] c.path_params[i]).bound_ident() == Some(
                name,
            ) {
            let i = choose|i: int|
                0 <= i < c.path_params.len() && (#[trigger] c.path_params[i]).bound_ident()
                    == Some(name);
            assert(c.path_params[i] == bind_segment(route.segments[i], pool));
            let k = lemma_declared_is_bound(route, i);
            assert(!unbound(names, pool, k));
            assert(names[k].text == name);
        } else {
            let i = choose|i: int|
                0 <= i < c.query_params.len() && (#[trigger] c.query_params[i]).ident == name;
            assert(names[count + i] == route.query[i]);
            assert(!unbound(names, pool, count + i));
            assert(names[count + i].text == name);
        }
    }
    if exists|k: int| 0 <= k < names.len() && (#[trigger] names[k]).text == name {
        let k = choose|k: int| 0 <= k < names.len() && (#[trigger] names[k]).text == name;
        assert(!unbound(names, pool, k));
        if k < count {
            let i = lemma_segment_of_name(route.segments, k);
            assert(c.path_params[i] == bind_segment(route.segments[i], pool));
            assert(c.path_params[i].bound_ident() == Some(name));
        } else {
            let i = k - count;
            assert(names[k] == route.query[i]);
            assert(c.query_params[i].ident == name);
        }
    }
}

/// The `k`-th name of a path is declared by one of its segments.
proof fn lemma_segment_of_name(segments: Seq<SegmentView>, k: int) -> (i: int)
    requires
        0 <= k < path_names(segments).len(),
    ensures
        0 <= i < segments.len(),
        segments[i].declared() == Some(path_names(segments)[k]),
    decreases segments.len(),
{
    if segments.last().declared() is Some && k == path_names(segments).len() - 1 {
        segments.len() - 1
    } else {
        lemma_segment_of_name(segments.drop_last(), k)
    }
}

/// A slot of the pool stands for a parameter of the handler: the parameter
/// at the slot's place has the slot's name and its type, and no later
/// parameter has that name.
pub proof fn slot_is_parameter(params: Seq<ParamView>, name: Seq<char>)
    requires
        params.len() <= usize::MAX,
        pool_of(params).contains_key(name),
    ensures
        pool_of(params)[name].ident == name,
        0 <= pool_of(params)[name].index < params.len(),
        params[pool_of(params)[name].index as int].name == Some(name),
        params[pool_of(params)[name].index as int].ty == pool_of(params)[name].ty,
        forall|i: int|
            pool_of(params)[name].index < i < params.len() ==> (#[trigger] params[i]).name != Some(
                name,
            ),
{
    lemma_last_named(params, name, params.len() as int);
}

/// The slots that a bound route holds: those of the path, then those of the
/// query.
pub open spec fn bound_slots(c: CompiledView) -> Seq<SlotView> {
    path_bindings(c.path_params) + c.query_params
}

/// Each slot that a bound route holds is the slot that the pool held under
/// the name that the route binds at that place.
proof fn lemma_bound_slots(route: RouteView, params: Seq<ParamView>)
    requires
        binding_failure(route, params) is None,
    ensures
        bound_slots(compiled(route, params)).len() == bound_names(route).len(),
        forall|k: int|
            0 <= k < bound_names(route).len() ==> #[trigger] bound_slots(
                compiled(route, params),
            )[k] == pool_of(params)[bound_names(route)[k].text] && pool_of(params).contains_key(
                bound_names(route)[k].text,
            ),
{
    let c = compiled(route, params);
    let pool = pool_of(params);
    let names = bound_names(route);
    binding_fails_at_first_unbound(route, params);
    lemma_bound_path_slots(route.segments, pool, c.path_params);
    let count = path_names(route.segments).len() as int;
    assert forall|k: int| 0 <= k < names.len() implies #[trigger] bound_slots(c)[k]
        == pool[names[k].text] && pool.contains_key(names[k].text) by {
        assert(!unbound(names, pool, k));
        if k >= count {
            assert(bound_slots(c)[k] == c.query_params[k - count]);
            assert(names[k] == route.query[k - count]);
        }
    }
}

/// The slots that a bound path holds are those of the names that the path
/// declares, in order.
proof fn lemma_bound_path_slots(
    segments: Seq<SegmentView>,
    pool: Map<Seq<char>, SlotView>,
    bound: Seq<PathParamView>,
)
    requires
        bound.len() == segments.len(),
        forall|i: int| 0 <= i < segments.len() ==> bound[i] == bind_segment(segments[i], pool),
    ensures
        path_bindings(bound).len() == path_names(segments).len(),
        forall|k: int|
            0 <= k < path_names(segments).len() ==> #[trigger] path_bindings(bound)[k]
                == pool[path_names(segments)[k].text],
    decreases segments.len(),
{
    if segments.len() > 0 {
        lemma_bound_path_slots(segments.drop_last(), pool, bound.drop_last());
        assert(bound.last() == bind_segment(segments.last(), pool));
    }
}

/// The parameters that a bound route has taken are those at the places of
/// its slots.
proof fn lemma_takes(c: CompiledView, i: int)
    ensures
        c.takes(i) <==> exists|k: int|
            0 <= k < bound_slots(c).len() && (#[trigger] bound_slots(c)[k]).index == i,
{
    let slots = bound_slots(c);
    let count = path_bindings(c.path_params).len() as int;
    if c.takes(i) {
        if exists|j: int|
            0 <= j < c.path_params.len() && (#[trigger] c.path_params[j]).bound_index() == Some(i) {
            let j = choose|j: int|
                0 <= j < c.path_params.len() && (#[trigger] c.path_params[j]).bound_index()
                    == Some(i);
            let k = lemma_binding_place(c.path_params, j);
            assert(slots[k].index == i);
        } else {
            let q = choose|q: int|
                0 <= q < c.query_params.len() && (#[trigger] c.query_params[q]).index == i;
            assert(slots[count + q].index == i);
        }
    }
    if exists|k: int| 0 <= k < slots.len() && (#[trigger] slots[k]).index == i {
        let k = choose|k: int| 0 <= k < slots.len() && (#[trigger] slots[k]).index == i;
        if k < count {
            let j = lemma_segment_of_binding(c.path_params, k);
            assert(c.path_params[j].bound_index() == Some(i));
        } else {
            assert(c.query_params[k - count].index == i);
        }
    }
}

/// The slot that the `j`-th segment holds stands among the bindings of the
/// path.
proof fn lemma_binding_place(params: Seq<PathParamView>, j: int) -> (k: int)
    requires
        0 <= j < params.len(),
        params[j].capture() is Some,
    ensures
        0 <= k < path_bindings(params).len(),
        path_bindings(params)[k] == params[j].capture()->Some_0,
    decreases params.len(),
{
    if j == params.len() - 1 {
        path_bindings(params).len() - 1
    } else {
        lemma_binding_place(params.drop_last(), j)
    }
}

/// The `k`-th binding of a path is held by one of its segments.
proof fn lemma_segment_of_binding(params: Seq<PathParamView>, k: int) -> (j: int)
    requires
        0 <= k < path_bindings(params).len(),
    ensures
        0 <= j < params.len(),
        params[j].capture() == Some(path_bindings(params)[k]),
    decreases params.len(),
{
    if params.last().capture() is Some && k == path_bindings(params).len() - 1 {
        params.len() - 1
    } else {
        lemma_segment_of_binding(params.drop_last(), k)
    }
}

/// Where the parameters of a handler have pairwise different names, the
/// parameters that a bound route has taken are those whose names stand in
/// the route: a parameter is left exactly if it is bound to no simple name,
/// or to a name that the route does not bind.
pub proof fn taken_is_named(route: RouteView, params: Seq<ParamView>, i: int)
    requires
        params.len() <= usize::MAX,
        binding_failure(route, params) is None,
        0 <= i < params.len(),
        forall|a: int, b: int|
            0 <= a < b < params.len() && (#[trigger] params[a]).name is Some ==> params[a].name
                != (#[trigger] params[b]).name,
    ensures
        compiled(route, params).takes(i) <==> params[i].name is Some && compiled(
            route,
            params,
        ).consumed(params[i].name->Some_0),
{
    let c = compiled(route, params);
    let names = bound_names(route);
    let pool = pool_of(params);
    let slots = bound_slots(c);
    lemma_bound_slots(route, params);
    lemma_takes(c, i);
    if params[i].name is Some && c.consumed(params[i].name->Some_0) {
        let name = params[i].name->Some_0;
        bound_is_named(route, params, name);
        let k = choose|k: int| 0 <= k < names.len() && (#[trigger] names[k]).text == name;
        assert(slots[k] == pool[name]);
        slot_is_parameter(params, name);
        assert(slots[k].index == i);
    }
    if c.takes(i) {
        let k = choose|k: int| 0 <= k < slots.len() && (#[trigger] slots[k]).index == i;
        let name = names[k].text;
        assert(slots[k] == pool[name]);
        slot_is_parameter(params, name);
        assert(params[i].name == Some(name));
        bound_is_named(route, params, name);
    }
}

} // verus!
