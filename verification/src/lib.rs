//! A compiler for route patterns: it parses a route such as
//! `GET "/item/:id?amount&offset"`, binds the names in it to the parameters of
//! a handler function, and derives what is needed to wire path and query
//! extraction into a call of the handler.

use vstd::prelude::*;

pub mod text;
pub mod ident;
pub mod method;
pub mod type_expr;
pub mod parsing;
pub mod signature;
pub mod compilation;
pub mod round_trip;
pub mod binding_laws;
pub mod controller;

use crate::compilation::{
    binding_failure, compiled, BindingError, BindingErrorView, CompiledRoute, CompiledView,
};
use crate::parsing::{parse_route, Route, SyntaxError, SyntaxErrorView};
use crate::signature::{HandlerParam, ParamView};
use crate::text::{view_of, views};
use crate::type_expr::{TypeExpr, TypeModel};

verus! {

/// Why a route cannot be compiled.
#[derive(Debug, PartialEq, Eq)]
pub enum RouteError {
    /// The route is malformed.
    Syntax(SyntaxError),
    /// The route names a parameter that the handler does not have, or has
    /// no longer.
    Binding(BindingError),
}

/// What a `RouteError` stands for.
pub enum RouteErrorView {
    Syntax(SyntaxErrorView),
    Binding(BindingErrorView),
}

impl View for RouteError {
    type V = RouteErrorView;

    open spec fn view(&self) -> RouteErrorView {
        match self {
            RouteError::Syntax(e) => RouteErrorView::Syntax(e@),
            RouteError::Binding(e) => RouteErrorView::Binding(e@),
        }
    }
}

impl RouteError {
    /// The message of the error, for the author of the route.
    pub fn message(&self) -> (r: String)
        ensures
            r@ == match self@ {
                RouteErrorView::Syntax(e) => e.message(),
                RouteErrorView::Binding(e) => e.message(),
            },
    {
        match self {
            RouteError::Syntax(e) => e.message(),
            RouteError::Binding(e) => e.message(),
        }
    }
}

/// What compiling a route against a handler's parameters gives: the bound
/// route, or the first thing that is wrong, a fault of the text before a
/// name that finds no parameter.
pub open spec fn route_outcome(
    keyword: Seq<char>,
    literal: Seq<char>,
    state: Option<TypeModel>,
    params: Seq<ParamView>,
) -> Result<CompiledView, RouteErrorView> {
    match parse_route(keyword, literal, state) {
        Err(e) => Err(RouteErrorView::Syntax(e)),
        Ok(parsed) => match binding_failure(parsed, params) {
            Some(e) => Err(RouteErrorView::Binding(e)),
            None => Ok(compiled(parsed, params)),
        },
    }
}

/// Compiles a route against the parameters of its handler: parses the
/// method keyword and the text of path and query, and binds the names to the
/// parameters. The outcome depends on the four arguments alone.
pub fn route(method: &str, literal: &str, state: Option<TypeExpr>, params: &Vec<HandlerParam>) -> (r:
    Result<CompiledRoute, RouteError>)
    ensures
        match r {
            Ok(c) => route_outcome(method@, literal@, view_of(state), views(params@)) == Ok::<
                CompiledView,
                RouteErrorView,
            >(c@),
            Err(e) => route_outcome(method@, literal@, view_of(state), views(params@)) == Err::<
                CompiledView,
                RouteErrorView,
            >(e@),
        },
{
    let parsed = match Route::parse(method, literal, state) {
        Ok(parsed) => parsed,
        Err(e) => {
            return Err(RouteError::Syntax(e));
        },
    };
    match CompiledRoute::from_route(parsed, params) {
        Ok(c) => Ok(c),
        Err(e) => Err(RouteError::Binding(e)),
    }
}

} // verus!
