//! Filter expressions over domain identifiers: equality tests combined with `and` and `or`,
//! and the query that carries such an expression together with an origin.
use vstd::prelude::*;
use std::marker::PhantomData;

use crate::domain_identifier::DomainIdentifierSet;
use crate::event::{Event, PersistedEvent};
use crate::identifier::{IdValue, Identifier, IdentifierValue};

verus! {

/// The abstract value of a filter expression.
pub enum ExprView {
    Eq(Seq<char>, IdValue),
    And(Box<ExprView>, Box<ExprView>),
    Or(Box<ExprView>, Box<ExprView>),
}

/// A filter expression: a domain identifier equal to a value, or a conjunction or
/// disjunction of two expressions.
#[derive(Debug)]
pub enum FilterExpr {
    Eq { ident: Identifier, value: IdentifierValue },
    And { l: Box<FilterExpr>, r: Box<FilterExpr> },
    Or { l: Box<FilterExpr>, r: Box<FilterExpr> },
}

impl FilterExpr {
    /// The abstract value of the expression.
    pub open spec fn view(&self) -> ExprView
        decreases self,
    {
        match self {
            FilterExpr::Eq { ident, value } => ExprView::Eq(ident@, value@),
            FilterExpr::And { l, r } => ExprView::And(Box::new(l.view()), Box::new(r.view())),
            FilterExpr::Or { l, r } => ExprView::Or(Box::new(l.view()), Box::new(r.view())),
        }
    }

    /// An equality test.
    pub fn eq(ident: Identifier, value: IdentifierValue) -> (r: FilterExpr)
        ensures
            r.view() == ExprView::Eq(ident@, value@),
    {
        FilterExpr::Eq { ident, value }
    }

    /// The conjunction of two expressions.
    pub fn and(l: FilterExpr, r: FilterExpr) -> (res: FilterExpr)
        ensures
            res.view() == ExprView::And(Box::new(l.view()), Box::new(r.view())),
    {
        FilterExpr::And { l: Box::new(l), r: Box::new(r) }
    }

    /// The disjunction of two expressions.
    pub fn or(l: FilterExpr, r: FilterExpr) -> (res: FilterExpr)
        ensures
            res.view() == ExprView::Or(Box::new(l.view()), Box::new(r.view())),
    {
        FilterExpr::Or { l: Box::new(l), r: Box::new(r) }
    }
}

/// Whether domain identifiers satisfy an expression: an equality holds when the identifier
/// is absent or has the value; `and` and `or` combine as usual.
pub open spec fn expr_selects(e: ExprView, ids: Map<Seq<char>, IdValue>) -> bool
    decreases e,
{
    match e {
        ExprView::Eq(key, value) => ids.contains_key(key) ==> ids[key] == value,
        ExprView::And(l, r) => expr_selects(*l, ids) && expr_selects(*r, ids),
        ExprView::Or(l, r) => expr_selects(*l, ids) || expr_selects(*r, ids),
    }
}

/// What each expression means for an event's domain identifiers: an equality holds when the
/// identifier is absent or has the value, a conjunction when both sides hold, a disjunction
/// when either side holds.
pub proof fn lemma_expr_meaning(
    key: Seq<char>,
    value: IdValue,
    l: ExprView,
    r: ExprView,
    ids: Map<Seq<char>, IdValue>,
)
    ensures
        expr_selects(ExprView::Eq(key, value), ids) == (!ids.contains_key(key) || ids[key] == value),
        expr_selects(ExprView::And(Box::new(l), Box::new(r)), ids) == (expr_selects(l, ids) && expr_selects(r, ids)),
        expr_selects(ExprView::Or(Box::new(l), Box::new(r)), ids) == (expr_selects(l, ids) || expr_selects(r, ids)),
{
}

/// Whether the domain identifiers satisfy the expression.
fn identifiers_satisfy(ids: &DomainIdentifierSet, filter: &FilterExpr) -> (r: bool)
    ensures
        r == expr_selects(filter.view(), ids.as_map()),
    decreases filter,
{
    match filter {
        FilterExpr::Eq { ident, value } => match ids.get(ident) {
            Some(v) => v.same_as(value),
            None => true,
        },
        FilterExpr::And { l, r } => identifiers_satisfy(ids, l) && identifiers_satisfy(ids, r),
        FilterExpr::Or { l, r } => identifiers_satisfy(ids, l) || identifiers_satisfy(ids, r),
    }
}

/// Whether the domain identifiers of the event satisfy the expression.
pub fn matches_filter<E: Event>(event: &PersistedEvent<E>, filter: &FilterExpr) -> (r: bool)
    ensures
        r == expr_selects(filter.view(), event.identifiers_map()),
{
    let ids = event.event().domain_identifiers();
    identifiers_satisfy(&ids, filter)
}

/// A query of the events of `E` restricted by an optional filter expression, read from an origin.
#[derive(Debug)]
pub struct ExprQuery<E: Event> {
    filter: Option<FilterExpr>,
    origin: i64,
    event_type: PhantomData<E>,
}

impl<E: Event> ExprQuery<E> {
    /// The filter expression, viewed.
    pub closed spec fn spec_filter(&self) -> Option<ExprView> {
        match &self.filter {
            Some(f) => Some(f.view()),
            None => None,
        }
    }

    /// The origin, as stored.
    pub closed spec fn spec_origin(&self) -> i64 {
        self.origin
    }

    /// A query with the given filter and origin zero.
    pub fn new(filter: Option<FilterExpr>) -> (r: Self)
        ensures
            r.spec_filter() == match filter {
                Some(f) => Some(f.view()),
                None => None,
            },
            r.spec_origin() == 0,
    {
        ExprQuery { filter, origin: 0, event_type: PhantomData }
    }

    /// The same query read from `origin`.
    pub fn change_origin(self, origin: i64) -> (r: Self)
        ensures
            r.spec_filter() == self.spec_filter(),
            r.spec_origin() == origin,
    {
        ExprQuery { origin, ..self }
    }

    /// The filter expression, if any.
    pub fn filter(&self) -> (r: Option<&FilterExpr>)
        ensures
            r is Some <==> self.spec_filter() is Some,
            r matches Some(f) ==> Some(f.view()) == self.spec_filter(),
    {
        match &self.filter {
            Some(f) => Some(f),
            None => None,
        }
    }

    /// The origin of the query.
    pub fn origin(&self) -> (r: i64)
        ensures
            r == self.spec_origin(),
    {
        self.origin
    }
}

} // verus!
