//! Binding a parsed route to the parameters of a handler, and what is
//! derived from the bound route: the path as the router wants it, the
//! bindings of path and query, the parameters that are left, and the order
//! of the arguments in the call of the handler.

use vstd::prelude::*;
use vstd::string::StringExecFns;
use crate::method::Method;
use crate::parsing::{Name, NameView, PathSegment, Piece, Route, RouteView, SegmentView};
use crate::signature::{pool_of, HandlerParam, ParamView, ParameterSlot, SlotPool, SlotView};
use crate::text::{decimal, decimal_string, views, Span};
use crate::type_expr::{unit_type, TypeExpr, TypeModel};

verus! {

/// One segment of a bound route's path: a capture or wildcard holds the slot
/// of the parameter that it is bound to.
#[derive(Debug, PartialEq, Eq)]
pub enum PathParam {
    Static(String),
    Capture(ParameterSlot),
    WildCard(ParameterSlot),
}

/// What a `PathParam` stands for.
pub enum PathParamView {
    Static(Seq<char>),
    Capture(SlotView),
    WildCard(SlotView),
}

impl View for PathParam {
    type V = PathParamView;

    open spec fn view(&self) -> PathParamView {
        match self {
            PathParam::Static(text) => PathParamView::Static(text@),
            PathParam::Capture(slot) => PathParamView::Capture(slot@),
            PathParam::WildCard(slot) => PathParamView::WildCard(slot@),
        }
    }
}

impl PathParamView {
    /// The slot that the segment is bound to, if it is bound.
    pub open spec fn capture(self) -> Option<SlotView> {
        match self {
            PathParamView::Static(_) => None,
            PathParamView::Capture(slot) => Some(slot),
            PathParamView::WildCard(slot) => Some(slot),
        }
    }

    /// The place of the parameter that the segment is bound to, if it is
    /// bound.
    pub open spec fn bound_index(self) -> Option<int> {
        match self {
            PathParamView::Static(_) => None,
            PathParamView::Capture(slot) => Some(slot.index as int),
            PathParamView::WildCard(slot) => Some(slot.index as int),
        }
    }

    /// The name of the parameter that the segment is bound to, if it is
    /// bound.
    pub open spec fn bound_ident(self) -> Option<Seq<char>> {
        match self {
            PathParamView::Static(_) => None,
            PathParamView::Capture(slot) => Some(slot.ident),
            PathParamView::WildCard(slot) => Some(slot.ident),
        }
    }

    /// The segment without regard to what it is bound to.
    pub open spec fn piece(self) -> Piece {
        match self {
            PathParamView::Static(text) => Piece::Static(text),
            PathParamView::Capture(slot) => Piece::Capture(slot.ident),
            PathParamView::WildCard(slot) => Piece::Wildcard(slot.ident),
        }
    }
}

impl PathParam {
    /// Whether the segment is a capture or a wildcard.
    pub fn captures(&self) -> (r: bool)
        ensures
            r == self@.capture() is Some,
    {
        match self {
            PathParam::Static(_) => false,
            PathParam::Capture(_) => true,
            PathParam::WildCard(_) => true,
        }
    }

    /// The slot that the segment is bound to, if it is a capture or a
    /// wildcard.
    pub fn capture(&self) -> (r: Option<&ParameterSlot>)
        ensures
            match r {
                Some(slot) => self@.capture() == Some(slot@),
                None => self@.capture() is None,
            },
    {
        match self {
            PathParam::Static(_) => None,
            PathParam::Capture(slot) => Some(slot),
            PathParam::WildCard(slot) => Some(slot),
        }
    }
}

/// A route bound to a handler: every capture, wildcard and query name holds
/// the slot of the parameter of that name, and the state type is settled.
#[derive(Debug, PartialEq, Eq)]
pub struct CompiledRoute {
    pub method: Method,
    pub path_params: Vec<PathParam>,
    pub query_params: Vec<ParameterSlot>,
    pub state: TypeExpr,
    pub route_lit: String,
}

/// What a `CompiledRoute` stands for.
pub struct CompiledView {
    pub method: Method,
    pub path_params: Seq<PathParamView>,
    pub query_params: Seq<SlotView>,
    pub state: TypeModel,
    pub route_lit: Seq<char>,
}

impl View for CompiledRoute {
    type V = CompiledView;

    open spec fn view(&self) -> CompiledView {
        CompiledView {
            method: self.method,
            path_params: views(self.path_params@),
            query_params: views(self.query_params@),
            state: self.state@,
            route_lit: self.route_lit@,
        }
    }
}

/// Which part of a route a name stands in.
#[derive(Clone, Copy, Debug, PartialEq, Eq, Structural)]
pub enum BindingSource {
    Path,
    Query,
}

/// A name of a route that no parameter of the handler is left for: the part
/// of the route that it stands in, the name, and where in the route's text
/// it stands.
#[derive(Debug, PartialEq, Eq)]
pub struct BindingError {
    pub source: BindingSource,
    pub name: String,
    pub span: Span,
}

/// What a `BindingError` stands for.
pub struct BindingErrorView {
    pub source: BindingSource,
    pub name: Seq<char>,
    pub span: Span,
}

impl View for BindingError {
    type V = BindingErrorView;

    open spec fn view(&self) -> BindingErrorView {
        BindingErrorView { source: self.source, name: self.name@, span: self.span }
    }
}

impl BindingErrorView {
    /// The message of the error, for the author of the route.
    pub open spec fn message(self) -> Seq<char> {
        match self.source {
            BindingSource::Path => "path parameter '"@ + self.name
                + "' not found in function arguments"@,
            BindingSource::Query => "query parameter '"@ + self.name
                + "' not found in function arguments"@,
        }
    }
}

impl BindingError {
    /// The message of the error, for the author of the route.
    pub fn message(&self) -> (r: String)
        ensures
            r@ == self@.message(),
    {
        let mut r: String = match self.source {
            BindingSource::Path => String::from_str("path parameter '"),
            BindingSource::Query => String::from_str("query parameter '"),
        };
        r.append(self.name.as_str());
        r.append("' not found in function arguments");
        r
    }
}

/// The names that the segments of a path declare, in the order of the path.
pub open spec fn path_names(segments: Seq<SegmentView>) -> Seq<NameView>
    decreases segments.len(),
{
    if segments.len() == 0 {
        Seq::empty()
    } else {
        match segments.last().declared() {
            Some(name) => path_names(segments.drop_last()).push(name),
            None => path_names(segments.drop_last()),
        }
    }
}

/// The names that a route binds, in the order in which it binds them: those
/// of the path, then those of the query.
pub open spec fn bound_names(route: RouteView) -> Seq<NameView> {
    path_names(route.segments) + route.query
}

/// Whether no parameter is left for the `k`-th of `names`: the pool holds
/// none of that name, or an earlier name has taken it.
pub open spec fn unbound(names: Seq<NameView>, pool: Map<Seq<char>, SlotView>, k: int) -> bool {
    ||| !pool.contains_key(names[k].text)
    ||| exists|j: int| 0 <= j < k && (#[trigger] names[j]).text == names[k].text
}

/// The place of the first of `names`, from `from` on, for which no parameter
/// is left; the number of names where there is none.
pub open spec fn first_unbound(names: Seq<NameView>, pool: Map<Seq<char>, SlotView>, from: int) -> int
    decreases names.len() - from,
{
    if from >= names.len() {
        names.len() as int
    } else if unbound(names, pool, from) {
        from
    } else {
        first_unbound(names, pool, from + 1)
    }
}

/// Why a route cannot be bound to a handler's parameters, if it cannot: the
/// first name in binding order for which no parameter is left.
pub open spec fn binding_failure(route: RouteView, params: Seq<ParamView>) -> Option<
    BindingErrorView,
> {
    let names = bound_names(route);
    let k = first_unbound(names, pool_of(params), 0);
    if k < names.len() {
        Some(
            BindingErrorView {
                source: if k < path_names(route.segments).len() {
                    BindingSource::Path
                } else {
                    BindingSource::Query
                },
                name: names[k].text,
                span: names[k].span,
            },
        )
    } else {
        None
    }
}

/// A segment bound through `pool`.
pub open spec fn bind_segment(segment: SegmentView, pool: Map<Seq<char>, SlotView>) -> PathParamView {
    match segment {
        SegmentView::Static(text) => PathParamView::Static(text),
        SegmentView::Capture(name) => PathParamView::Capture(pool[name.text]),
        SegmentView::Wildcard(name) => PathParamView::WildCard(pool[name.text]),
    }
}

/// The state type that a handler's parameters suggest: what the first
/// parameter from `from` on with a type written as `State<T>` wraps, and the
/// unit type where there is no such parameter.
pub open spec fn guess_state(params: Seq<ParamView>, from: int) -> TypeModel
    decreases params.len() - from,
{
    if from >= params.len() {
        unit_type()
    } else {
        match params[from].ty.state_argument() {
            Some(ty) => ty,
            None => guess_state(params, from + 1),
        }
    }
}

/// The route `route` bound to the parameters `params`, where it can be
/// bound. The state type is the one that the route names, else the one that
/// the parameters suggest, whichever of them the route binds.
pub open spec fn compiled(route: RouteView, params: Seq<ParamView>) -> CompiledView {
    CompiledView {
        method: route.method,
        path_params: Seq::new(
            route.segments.len(),
            |i: int| bind_segment(route.segments[i], pool_of(params)),
        ),
        query_params: Seq::new(route.query.len(), |i: int| pool_of(params)[route.query[i].text]),
        state: match route.state {
            Some(ty) => ty,
            None => guess_state(params, 0),
        },
        route_lit: route.literal,
    }
}

/// Guesses the state type from a handler's parameters: what the first
/// parameter with a type written as `State<T>` wraps, else the unit type.
pub fn guess_state_type(params: &Vec<HandlerParam>) -> (r: TypeExpr)
    ensures
        r@ == guess_state(views(params@), 0),
{
    let mut i: usize = 0;
    while i < params.len()
        invariant
            i <= params@.len(),
            guess_state(views(params@), 0) == guess_state(views(params@), i as int),
        decreases params@.len() - i,
    {
        assert(views(params@)[i as int] == params@[i as int]@);
        match params[i].ty.state_argument() {
            Some(ty) => {
                return ty;
            },
            None => {},
        }
        i += 1;
    }
    TypeExpr::unit()
}

/// What is left of `pool` once the first `k` of `names` have taken their
/// parameters.
pub open spec fn left_after(pool: Map<Seq<char>, SlotView>, names: Seq<NameView>, k: int) -> Map<
    Seq<char>,
    SlotView,
> {
    Map::new(
        |n: Seq<char>|
            pool.contains_key(n) && !(exists|j: int| 0 <= j < k && (#[trigger] names[j]).text == n),
        |n: Seq<char>| pool[n],
    )
}

/// One step of binding: the `k`-th name finds a parameter exactly if one is
/// left for it, it finds the one that the pool held at first, and taking it
/// leaves what is left after `k + 1` names.
proof fn lemma_bind_step(pool: Map<Seq<char>, SlotView>, names: Seq<NameView>, k: int)
    requires
        0 <= k < names.len(),
    ensures
        left_after(pool, names, k).contains_key(names[k].text) <==> !unbound(names, pool, k),
        left_after(pool, names, k).contains_key(names[k].text) ==> left_after(
            pool,
            names,
            k,
        )[names[k].text] == pool[names[k].text],
        left_after(pool, names, k).remove(names[k].text) == left_after(pool, names, k + 1),
{
    let name = names[k].text;
    let before = left_after(pool, names, k);
    let after = left_after(pool, names, k + 1);
    assert forall|n: Seq<char>| #[trigger]
        before.remove(name).dom().contains(n) == after.dom().contains(n) by {
        if n == name {
            assert(names[k].text == n);
        } else {
            if exists|j: int| 0 <= j < k + 1 && (#[trigger] names[j]).text == n {
                let j = choose|j: int| 0 <= j < k + 1 && (#[trigger] names[j]).text == n;
                assert(j < k);
            }
        }
    }
    assert(before.remove(name) =~= after);
}

/// Skipping names that find a parameter does not change which name is the
/// first to find none.
proof fn lemma_first_unbound(
    names: Seq<NameView>,
    pool: Map<Seq<char>, SlotView>,
    from: int,
    to: int,
)
    requires
        0 <= from <= to <= names.len(),
        forall|j: int| from <= j < to ==> !unbound(names, pool, j),
    ensures
        first_unbound(names, pool, from) == first_unbound(names, pool, to),
    decreases to - from,
{
    if from < to {
        lemma_first_unbound(names, pool, from + 1, to);
    }
}

/// The names of the first `i + 1` segments are those of the first `i`, and
/// after them the name of the `i`-th segment where it declares one.
proof fn lemma_path_names_step(segments: Seq<SegmentView>, i: int)
    requires
        0 <= i < segments.len(),
    ensures
        path_names(segments.take(i + 1)) == match segments[i].declared() {
            Some(name) => path_names(segments.take(i)).push(name),
            None => path_names(segments.take(i)),
        },
{
    assert(segments.take(i + 1).drop_last() =~= segments.take(i));
    assert(segments.take(i + 1).last() == segments[i]);
}

/// The names of the first `i` segments begin the names of all segments.
proof fn lemma_path_names_prefix(segments: Seq<SegmentView>, i: int)
    requires
        0 <= i <= segments.len(),
    ensures
        path_names(segments.take(i)).len() <= path_names(segments).len(),
        forall|j: int|
            0 <= j < path_names(segments.take(i)).len() ==> path_names(segments.take(i))[j]
                == path_names(segments)[j],
    decreases segments.len() - i,
{
    if i == segments.len() {
        assert(segments.take(i) =~= segments);
    } else {
        lemma_path_names_step(segments, i);
        lemma_path_names_prefix(segments, i + 1);
    }
}

/// Takes the parameter named `name` out of `pool`, or reports that a name
/// of `source` finds none.
fn resolve(pool: &mut SlotPool, name: &Name, source: BindingSource) -> (r: Result<
    ParameterSlot,
    BindingError,
>)
    requires
        old(pool).wf(),
    ensures
        final(pool).wf(),
        final(pool)@ == old(pool)@.remove(name@.text),
        match r {
            Ok(slot) => old(pool)@.contains_key(name@.text) && slot@ == old(pool)@[name@.text],
            Err(e) => !old(pool)@.contains_key(name@.text) && e@ == (BindingErrorView {
                source,
                name: name@.text,
                span: name@.span,
            }),
        },
{
    match pool.take(&name.text) {
        Some(slot) => Ok(slot),
        None => Err(BindingError { source, name: name.text.clone(), span: name.span }),
    }
}

impl CompiledRoute {
    /// Binds `route` to the parameters `params` of a handler. The names of
    /// the path are bound first, in the order of the path, then those of the
    /// query; each takes the parameter of its name out of the pool, so a name
    /// that stands twice finds none the second time. The first name that
    /// finds no parameter fails the whole route.
    pub fn from_route(route: Route, params: &Vec<HandlerParam>) -> (r: Result<
        CompiledRoute,
        BindingError,
    >)
        ensures
            match r {
                Ok(c) => binding_failure(route@, views(params@)) is None && c@ == compiled(
                    route@,
                    views(params@),
                ),
                Err(e) => binding_failure(route@, views(params@)) == Some(e@),
            },
    {
        let ghost segments = route@.segments;
        let ghost names = bound_names(route@);
        let ghost all = pool_of(views(params@));
        let ghost path_count = path_names(segments).len() as int;
        let Route { method, path_params: declared, query_params: queried, state, route_lit } = route;
        let mut pool = SlotPool::from_params(params);
        assert(pool@ =~= left_after(all, names, 0));
        let mut path_params: Vec<PathParam> = Vec::new();
        let mut i: usize = 0;
        while i < declared.len()
            invariant
                i <= declared@.len(),
                segments == views(declared@),
                segments == route@.segments,
                names == bound_names(route@),
                names == path_names(segments) + views(queried@),
                path_count == path_names(segments).len(),
                all == pool_of(views(params@)),
                pool.wf(),
                pool@ == left_after(all, names, path_names(segments.take(i as int)).len() as int),
                forall|j: int|
                    0 <= j < path_names(segments.take(i as int)).len() ==> !unbound(names, all, j),
                path_params@.len() == i,
                forall|j: int|
                    0 <= j < i ==> (#[trigger] path_params@[j])@ == bind_segment(segments[j], all),
            decreases declared@.len() - i,
        {
            let ghost k = path_names(segments.take(i as int)).len() as int;
            proof {
                lemma_path_names_step(segments, i as int);
                lemma_path_names_prefix(segments, i as int);
                lemma_path_names_prefix(segments, i + 1);
                lemma_first_unbound(names, all, 0, k);
                assert(segments[i as int] == declared@[i as int]@);
                if segments[i as int].declared() is Some {
                    assert(names[k] == segments[i as int].declared()->Some_0);
                    lemma_bind_step(all, names, k);
                }
            }
            match &declared[i] {
                PathSegment::Static(text) => {
                    path_params.push(PathParam::Static(text.clone()));
                },
                PathSegment::Capture(name) => {
                    match resolve(&mut pool, name, BindingSource::Path) {
                        Ok(slot) => {
                            path_params.push(PathParam::Capture(slot));
                        },
                        Err(e) => {
                            return Err(e);
                        },
                    }
                },
                PathSegment::Wildcard(name) => {
                    match resolve(&mut pool, name, BindingSource::Path) {
                        Ok(slot) => {
                            path_params.push(PathParam::WildCard(slot));
                        },
                        Err(e) => {
                            return Err(e);
                        },
                    }
                },
            }
            i += 1;
        }
        assert(segments.take(i as int) =~= segments);
        let mut query_params: Vec<ParameterSlot> = Vec::new();
        let mut q: usize = 0;
        while q < queried.len()
            invariant
                q <= queried@.len(),
                segments == route@.segments,
                names == bound_names(route@),
                names == path_names(segments) + views(queried@),
                path_count == path_names(segments).len(),
                all == pool_of(views(params@)),
                pool.wf(),
                pool@ == left_after(all, names, path_count + q),
                forall|j: int| 0 <= j < path_count + q ==> !unbound(names, all, j),
                query_params@.len() == q,
                forall|j: int|
                    0 <= j < q ==> (#[trigger] query_params@[j])@ == all[queried@[j]@.text],
            decreases queried@.len() - q,
        {
            let ghost k = path_count + q;
            proof {
                lemma_first_unbound(names, all, 0, k);
                assert(names[k] == queried@[q as int]@);
                lemma_bind_step(all, names, k);
            }
            match resolve(&mut pool, &queried[q], BindingSource::Query) {
                Ok(slot) => {
                    query_params.push(slot);
                },
                Err(e) => {
                    return Err(e);
                },
            }
            q += 1;
        }
        proof {
            lemma_first_unbound(names, all, 0, names.len() as int);
        }
        let state = match state {
            Some(ty) => ty,
            None => guess_state_type(params),
        };
        let c = CompiledRoute { method, path_params, query_params, state, route_lit };
        proof {
            let want = compiled(route@, views(params@));
            assert(c@.path_params =~= want.path_params);
            assert(c@.query_params =~= want.query_params);
        }
        Ok(c)
    }
}

/// What a segment adds to the path after its `/`: literal text as it is, a
/// capture as `{name}`, a wildcard as `{*name}`.
pub open spec fn piece_text(piece: Piece) -> Seq<char> {
    match piece {
        Piece::Static(text) => text,
        Piece::Capture(name) => seq!['{'] + name + seq!['}'],
        Piece::Wildcard(name) => seq!['{', '*'] + name + seq!['}'],
    }
}

/// The segments one after the other, each behind a `/`.
pub open spec fn joined(pieces: Seq<Piece>) -> Seq<char>
    decreases pieces.len(),
{
    if pieces.len() == 0 {
        Seq::empty()
    } else {
        joined(pieces.drop_last()) + seq!['/'] + piece_text(pieces.last())
    }
}

/// The path as the router wants it: each segment behind a `/`, and `/`
/// alone for a path without segments.
pub open spec fn canonical_path(pieces: Seq<Piece>) -> Seq<char> {
    if pieces.len() == 0 {
        seq!['/']
    } else {
        joined(pieces)
    }
}

/// The slots that the segments of a bound path hold, in the order of the
/// path.
pub open spec fn path_bindings(params: Seq<PathParamView>) -> Seq<SlotView>
    decreases params.len(),
{
    if params.len() == 0 {
        Seq::empty()
    } else {
        match params.last().capture() {
            Some(slot) => path_bindings(params.drop_last()).push(slot),
            None => path_bindings(params.drop_last()),
        }
    }
}

/// The names of `slots`, in order.
pub open spec fn idents(slots: Seq<SlotView>) -> Seq<Seq<char>> {
    Seq::new(slots.len(), |i: int| slots[i].ident)
}

impl CompiledView {
    /// The segments of the path without regard to what they are bound to.
    pub open spec fn pieces(self) -> Seq<Piece> {
        Seq::new(self.path_params.len(), |i: int| self.path_params[i].piece())
    }

    /// The order in which the call of the handler names what was extracted:
    /// the names bound in the path, in the order of the path, then the names
    /// bound in the query, in the order of the query.
    pub open spec fn extraction_order(self) -> Seq<Seq<char>> {
        idents(path_bindings(self.path_params)) + idents(self.query_params)
    }

    /// Whether the route has bound a parameter named `name`.
    pub open spec fn consumed(self, name: Seq<char>) -> bool {
        ||| exists|i: int|
            0 <= i < self.path_params.len() && (#[trigger] self.path_params[i]).bound_ident()
                == Some(name)
        ||| exists|i: int|
            0 <= i < self.query_params.len() && (#[trigger] self.query_params[i]).ident == name
    }
}

/// The bindings of the first `i + 1` segments are those of the first `i`,
/// and after them that of the `i`-th segment where it has one.
proof fn lemma_path_bindings_step(params: Seq<PathParamView>, i: int)
    requires
        0 <= i < params.len(),
    ensures
        path_bindings(params.take(i + 1)) == match params[i].capture() {
            Some(slot) => path_bindings(params.take(i)).push(slot),
            None => path_bindings(params.take(i)),
        },
{
    assert(params.take(i + 1).drop_last() =~= params.take(i));
    assert(params.take(i + 1).last() == params[i]);
}

/// The first `i + 1` segments are joined as the first `i`, then `/`, then
/// the `i`-th.
pub proof fn lemma_joined_step(pieces: Seq<Piece>, i: int)
    requires
        0 <= i < pieces.len(),
    ensures
        joined(pieces.take(i + 1)) == joined(pieces.take(i)) + seq!['/'] + piece_text(pieces[i]),
{
    assert(pieces.take(i + 1).drop_last() =~= pieces.take(i));
    assert(pieces.take(i + 1).last() == pieces[i]);
}

impl CompiledRoute {
    /// The path as the router wants it: each segment behind a `/`, a
    /// capture as `{name}`, a wildcard as `{*name}`; `/` alone where the
    /// route has no segments.
    pub fn to_axum_path_string(&self) -> (path: String)
        ensures
            path@ == canonical_path(self@.pieces()),
    {
        let ghost pieces = self@.pieces();
        if self.path_params.len() == 0 {
            proof {
                reveal_strlit("/");
                assert("/"@ =~= seq!['/']);
            }
            return String::from_str("/");
        }
        let mut path: String = String::new();
        let mut i: usize = 0;
        assert(pieces.take(0) =~= Seq::<Piece>::empty());
        while i < self.path_params.len()
            invariant
                i <= self.path_params@.len(),
                pieces == self@.pieces(),
                pieces.len() == self.path_params@.len(),
                path@ == joined(pieces.take(i as int)),
            decreases self.path_params@.len() - i,
        {
            proof {
                reveal_strlit("/");
                reveal_strlit("{");
                reveal_strlit("{*");
                reveal_strlit("}");
                lemma_joined_step(pieces, i as int);
                assert(pieces[i as int] == self.path_params@[i as int]@.piece());
            }
            let ghost before = path@;
            path.append("/");
            match &self.path_params[i] {
                PathParam::Static(text) => {
                    path.append(text.as_str());
                    assert(path@ =~= before + seq!['/'] + piece_text(pieces[i as int]));
                },
                PathParam::Capture(slot) => {
                    path.append("{");
                    path.append(slot.ident.as_str());
                    path.append("}");
                    assert(path@ =~= before + seq!['/'] + piece_text(pieces[i as int]));
                },
                PathParam::WildCard(slot) => {
                    path.append("{*");
                    path.append(slot.ident.as_str());
                    path.append("}");
                    assert(path@ =~= before + seq!['/'] + piece_text(pieces[i as int]));
                },
            }
            i += 1;
        }
        assert(pieces.take(i as int) =~= pieces);
        path
    }

    /// The bindings of the path: the slot of each capture and wildcard, in
    /// the order of the path.
    pub fn path_bindings(&self) -> (r: Vec<ParameterSlot>)
        ensures
            views(r@) == path_bindings(self@.path_params),
    {
        let ghost params = self@.path_params;
        let mut r: Vec<ParameterSlot> = Vec::new();
        let mut i: usize = 0;
        assert(params.take(0) =~= Seq::<PathParamView>::empty());
        while i < self.path_params.len()
            invariant
                i <= self.path_params@.len(),
                params == self@.path_params,
                views(r@) == path_bindings(params.take(i as int)),
            decreases self.path_params@.len() - i,
        {
            proof {
                lemma_path_bindings_step(params, i as int);
                assert(params[i as int] == self.path_params@[i as int]@);
            }
            let ghost before = views(r@);
            match self.path_params[i].capture() {
                Some(slot) => {
                    r.push(slot.clone());
                    assert(views(r@) =~= before.push(slot@));
                },
                None => {},
            }
            i += 1;
        }
        assert(params.take(i as int) =~= params);
        r
    }

    /// What extracts the path: the bindings of the path in its order, which
    /// form one tuple; nothing where the path binds no parameter.
    pub fn path_extractor(&self) -> (r: Option<Vec<ParameterSlot>>)
        ensures
            match r {
                Some(slots) => views(slots@) == path_bindings(self@.path_params) && slots@.len()
                    > 0,
                None => path_bindings(self@.path_params).len() == 0,
            },
    {
        let slots = self.path_bindings();
        assert(views(slots@).len() == slots@.len());
        if slots.len() == 0 {
            None
        } else {
            Some(slots)
        }
    }

    /// The bindings of the query: the slot of each query name, in the order
    /// of the query.
    pub fn query_bindings(&self) -> (r: Vec<ParameterSlot>)
        ensures
            views(r@) == self@.query_params,
    {
        let mut r: Vec<ParameterSlot> = Vec::new();
        let mut i: usize = 0;
        while i < self.query_params.len()
            invariant
                i <= self.query_params@.len(),
                r@.len() == i,
                forall|j: int| 0 <= j < i ==> (#[trigger] r@[j])@ == self.query_params@[j]@,
            decreases self.query_params@.len() - i,
        {
            r.push(self.query_params[i].clone());
            i += 1;
        }
        assert(views(r@) =~= self@.query_params);
        r
    }

    /// What extracts the query: the names of the query in its order, which
    /// are the fields of one record; nothing where the route has no query.
    pub fn query_extractor(&self) -> (r: Option<Vec<String>>)
        ensures
            match r {
                Some(names) => views(names@) == idents(self@.query_params) && names@.len() > 0,
                None => self@.query_params.len() == 0,
            },
    {
        if self.query_params.len() == 0 {
            return None;
        }
        let mut names: Vec<String> = Vec::new();
        let mut i: usize = 0;
        while i < self.query_params.len()
            invariant
                i <= self.query_params@.len(),
                names@.len() == i,
                forall|j: int| 0 <= j < i ==> (#[trigger] names@[j])@ == self.query_params@[j]@.ident,
            decreases self.query_params@.len() - i,
        {
            names.push(self.query_params[i].ident.clone());
            i += 1;
        }
        assert(views(names@) =~= idents(self@.query_params));
        Some(names)
    }

    /// The record that the query is read into: its fields with their types,
    /// in the order of the query; nothing where the route has no query.
    pub fn query_params_struct(&self) -> (r: Option<Vec<ParameterSlot>>)
        ensures
            match r {
                Some(fields) => views(fields@) == self@.query_params && fields@.len() > 0,
                None => self@.query_params.len() == 0,
            },
    {
        if self.query_params.len() == 0 {
            None
        } else {
            let fields = self.query_bindings();
            assert(views(fields@).len() == fields@.len());
            Some(fields)
        }
    }

    /// The names under which the call of the handler finds what was
    /// extracted, in the order of its arguments: the names bound in the
    /// path, then the names bound in the query.
    pub fn extracted_idents(&self) -> (r: Vec<String>)
        ensures
            views(r@) == self@.extraction_order(),
    {
        let ghost params = self@.path_params;
        let mut r: Vec<String> = Vec::new();
        let mut i: usize = 0;
        assert(params.take(0) =~= Seq::<PathParamView>::empty());
        assert(views(r@) =~= idents(path_bindings(params.take(0))));
        while i < self.path_params.len()
            invariant
                i <= self.path_params@.len(),
                params == self@.path_params,
                views(r@) == idents(path_bindings(params.take(i as int))),
            decreases self.path_params@.len() - i,
        {
            proof {
                lemma_path_bindings_step(params, i as int);
                assert(params[i as int] == self.path_params@[i as int]@);
            }
            let ghost before = views(r@);
            match self.path_params[i].capture() {
                Some(slot) => {
                    r.push(slot.ident.clone());
                    assert(views(r@) =~= before.push(slot@.ident));
                    assert(views(r@) =~= idents(path_bindings(params.take(i + 1))));
                },
                None => {},
            }
            i += 1;
        }
        assert(params.take(i as int) =~= params);
        let ghost first = views(r@);
        let mut q: usize = 0;
        while q < self.query_params.len()
            invariant
                q <= self.query_params@.len(),
                first == idents(path_bindings(self@.path_params)),
                views(r@) == first + idents(self@.query_params.take(q as int)),
            decreases self.query_params@.len() - q,
        {
            let ghost before = views(r@);
            r.push(self.query_params[q].ident.clone());
            assert(views(r@) =~= before.push(self.query_params@[q as int]@.ident));
            assert(views(r@) =~= first + idents(self@.query_params.take(q + 1)));
            q += 1;
        }
        assert(self@.query_params.take(q as int) =~= self@.query_params);
        r
    }
}

/// A parameter under a new name: the name, the type, and the place of the
/// parameter among those of the handler.
#[derive(Debug, PartialEq, Eq)]
pub struct PatType {
    pub pat: String,
    pub ty: TypeExpr,
    pub index: usize,
}

/// What a `PatType` stands for.
pub struct PatTypeView {
    pub pat: Seq<char>,
    pub ty: TypeModel,
    pub index: int,
}

impl View for PatType {
    type V = PatTypeView;

    open spec fn view(&self) -> PatTypeView {
        PatTypeView { pat: self.pat@, ty: self.ty@, index: self.index as int }
    }
}

/// The name that stands for the parameter at place `i`: `___arg___` and the
/// place in decimal.
pub open spec fn positional_name(i: nat) -> Seq<char> {
    "___arg___"@ + decimal(i)
}

impl CompiledView {
    /// Whether the route has taken the parameter at place `index`: one of
    /// its bindings holds the slot of that place.
    pub open spec fn takes(self, index: int) -> bool {
        ||| exists|i: int|
            0 <= i < self.path_params.len() && (#[trigger] self.path_params[i]).bound_index()
                == Some(index)
        ||| exists|i: int|
            0 <= i < self.query_params.len() && (#[trigger] self.query_params[i]).index == index
    }

    /// The parameters among `args` that the route has not taken, in their
    /// order, each with its type and under the name of its place.
    pub open spec fn remaining(self, args: Seq<ParamView>) -> Seq<PatTypeView>
        decreases args.len(),
    {
        if args.len() == 0 {
            Seq::empty()
        } else if !self.takes(args.len() - 1) {
            self.remaining(args.drop_last()).push(
                PatTypeView {
                    pat: positional_name((args.len() - 1) as nat),
                    ty: args.last().ty,
                    index: args.len() - 1,
                },
            )
        } else {
            self.remaining(args.drop_last())
        }
    }

    /// What documents the route: its method, its text and its state type.
    pub open spec fn doc(self) -> Seq<char> {
        "# Handler information\n- Method: `"@ + self.method.routing_name() + "`\n- Path: `"@
            + self.route_lit + "`\n- State: `"@ + self.state.text + "`"@
    }
}

/// What is left of the first `i + 1` parameters is what is left of the
/// first `i`, and after it the `i`-th where the route has not taken it.
proof fn lemma_remaining_step(c: CompiledView, args: Seq<ParamView>, i: int)
    requires
        0 <= i < args.len(),
    ensures
        c.remaining(args.take(i + 1)) == if !c.takes(i) {
            c.remaining(args.take(i)).push(
                PatTypeView { pat: positional_name(i as nat), ty: args[i].ty, index: i },
            )
        } else {
            c.remaining(args.take(i))
        },
{
    assert(args.take(i + 1).drop_last() =~= args.take(i));
    assert(args.take(i + 1).last() == args[i]);
}

impl CompiledRoute {
    /// Tells whether the route has taken the parameter at place `index`.
    pub fn takes(&self, index: usize) -> (r: bool)
        ensures
            r == self@.takes(index as int),
    {
        let mut i: usize = 0;
        while i < self.path_params.len()
            invariant
                i <= self.path_params@.len(),
                forall|j: int|
                    0 <= j < i ==> (#[trigger] self@.path_params[j]).bound_index() != Some(
                        index as int,
                    ),
            decreases self.path_params@.len() - i,
        {
            assert(self@.path_params[i as int] == self.path_params@[i as int]@);
            match self.path_params[i].capture() {
                Some(slot) => {
                    if slot.index == index {
                        return true;
                    }
                },
                None => {},
            }
            i += 1;
        }
        let mut q: usize = 0;
        while q < self.query_params.len()
            invariant
                q <= self.query_params@.len(),
                forall|j: int|
                    0 <= j < self.path_params@.len() ==> (
                    #[trigger] self@.path_params[j]).bound_index() != Some(index as int),
                forall|j: int| 0 <= j < q ==> (#[trigger] self@.query_params[j]).index != index,
            decreases self.query_params@.len() - q,
        {
            assert(self@.query_params[q as int] == self.query_params@[q as int]@);
            if self.query_params[q].index == index {
                return true;
            }
            q += 1;
        }
        false
    }

    /// The parameters that the route has not taken, for the caller of the
    /// handler to supply: each parameter of `args` whose place none of the
    /// route's bindings holds, in the order of `args`, with its type, and
    /// named `___arg___` and its place in `args`. `args` are the parameters
    /// that the route was bound to.
    pub fn remaining_pattypes_numbered(&self, args: &Vec<HandlerParam>) -> (r: Vec<PatType>)
        ensures
            views(r@) == self@.remaining(views(args@)),
    {
        let ghost all = views(args@);
        let mut r: Vec<PatType> = Vec::new();
        let mut i: usize = 0;
        assert(all.take(0) =~= Seq::<ParamView>::empty());
        while i < args.len()
            invariant
                i <= args@.len(),
                all == views(args@),
                views(r@) == self@.remaining(all.take(i as int)),
            decreases args@.len() - i,
        {
            proof {
                lemma_remaining_step(self@, all, i as int);
                assert(all[i as int] == args@[i as int]@);
            }
            let arg = &args[i];
            if !self.takes(i) {
                let ghost before = views(r@);
                let mut pat: String = String::from_str("___arg___");
                pat.append(decimal_string(i).as_str());
                let item = PatType { pat, ty: arg.ty.clone(), index: i };
                r.push(item);
                assert(views(r@) =~= before.push(
                    PatTypeView {
                        pat: positional_name(i as nat),
                        ty: all[i as int].ty,
                        index: i as int,
                    },
                ));
            }
            i += 1;
        }
        assert(all.take(i as int) =~= all);
        r
    }

    /// What documents the route: its method, its text and its state type.
    pub fn to_doc_comments(&self) -> (r: String)
        ensures
            r@ == self@.doc(),
    {
        let mut r: String = String::from_str("# Handler information\n- Method: `");
        r.append(self.method.to_axum_method_name().as_str());
        r.append("`\n- Path: `");
        r.append(self.route_lit.as_str());
        r.append("`\n- State: `");
        r.append(self.state.text.as_str());
        r.append("`");
        r
    }
}

} // verus!
