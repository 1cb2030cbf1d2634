//! SQL criteria of a filter-expression query over the `domain_identifiers` JSON column.
use vstd::prelude::*;

use crate::event::{strs_view, Event};
use crate::filter_expr::{ExprQuery, ExprView, FilterExpr};
use crate::identifier::id_value_text;
use crate::text::{int_decimal, join, lemma_join_push, push_i64_decimal};

verus! {

/// The SQL condition of a filter expression.
pub open spec fn expr_sql(e: ExprView) -> Seq<char>
    decreases e,
{
    match e {
        ExprView::Eq(ident, value) => "domain_identifiers @> '{\""@ + ident + "\":\""@ + id_value_text(value) + "\"}'"@,
        ExprView::And(l, r) => "("@ + expr_sql(*l) + ") AND ("@ + expr_sql(*r) + ")"@,
        ExprView::Or(l, r) => "("@ + expr_sql(*l) + ") OR ("@ + expr_sql(*r) + ")"@,
    }
}

/// The event type condition: `true`, or the quoted names in an `IN` list.
pub open spec fn names_sql(names: Seq<Seq<char>>) -> Seq<char> {
    if names.len() == 0 {
        "true"@
    } else {
        "event_type IN ("@ + join(names.map_values(|n: Seq<char>| "'"@ + n + "'"@), ","@) + ")"@
    }
}

/// The whole criteria: the ID range, the domain identifiers condition and the event types.
pub open spec fn criteria_sql(
    origin: i64,
    last_event_id: Option<i64>,
    filter: Option<ExprView>,
    names: Seq<Seq<char>>,
) -> Seq<char> {
    "(id >= "@ + int_decimal(origin as int) + " AND "@ + match last_event_id {
        None => "true"@,
        Some(id) => "id <= "@ + int_decimal(id as int),
    } + ") AND ("@ + match filter {
        Some(f) => expr_sql(f),
        None => "true"@,
    } + ") AND "@ + names_sql(names)
}

/// A builder of the SQL criteria of a filter-expression query.
pub struct SqlEventsCriteriaBuilder<'a, QE: Event> {
    query: &'a ExprQuery<QE>,
    origin: i64,
    last_event_id: Option<i64>,
}

impl<'a, QE: Event> SqlEventsCriteriaBuilder<'a, QE> {
    /// The query of the builder.
    pub closed spec fn spec_query(&self) -> &'a ExprQuery<QE> {
        self.query
    }

    /// The origin of the criteria.
    pub closed spec fn spec_origin(&self) -> i64 {
        self.origin
    }

    /// The last event ID of the criteria, if any.
    pub closed spec fn spec_last_event_id(&self) -> Option<i64> {
        self.last_event_id
    }

    /// A builder for the query, from the query's origin and with no last event ID.
    pub fn new(query: &'a ExprQuery<QE>) -> (r: Self)
        ensures
            r.spec_query() == query,
            r.spec_origin() == query.spec_origin(),
            r.spec_last_event_id() is None,
    {
        SqlEventsCriteriaBuilder { query, origin: query.origin(), last_event_id: None }
    }

    /// The same builder with another origin.
    pub fn with_origin(self, origin: i64) -> (r: Self)
        ensures
            r.spec_query() == self.spec_query(),
            r.spec_origin() == origin,
            r.spec_last_event_id() == self.spec_last_event_id(),
    {
        SqlEventsCriteriaBuilder { origin, ..self }
    }

    /// The same builder, bounded by the last event ID.
    pub fn with_last_event_id(self, last_event_id: i64) -> (r: Self)
        ensures
            r.spec_query() == self.spec_query(),
            r.spec_origin() == self.spec_origin(),
            r.spec_last_event_id() == Some(last_event_id),
    {
        SqlEventsCriteriaBuilder { last_event_id: Some(last_event_id), ..self }
    }

    /// The SQL condition of a filter expression.
    pub fn eval(&self, filter: &FilterExpr) -> (r: String)
        ensures
            r@ == expr_sql(filter.view()),
        decreases filter,
    {
        match filter {
            FilterExpr::Eq { ident, value } => {
                let mut s = String::from_str("domain_identifiers @> '{\"");
                s.append(ident.into_inner());
                s.append("\":\"");
                let v = value.to_string();
                s.append(v.as_str());
                s.append("\"}'");
                s
            },
            FilterExpr::And { l, r } => {
                let ls = self.eval(l);
                let rs = self.eval(r);
                let mut s = String::from_str("(");
                s.append(ls.as_str());
                s.append(") AND (");
                s.append(rs.as_str());
                s.append(")");
                s
            },
            FilterExpr::Or { l, r } => {
                let ls = self.eval(l);
                let rs = self.eval(r);
                let mut s = String::from_str("(");
                s.append(ls.as_str());
                s.append(") OR (");
                s.append(rs.as_str());
                s.append(")");
                s
            },
        }
    }

    /// Builds the SQL criteria.
    pub fn build(&self) -> (r: String)
        ensures
            r@ == criteria_sql(
                self.spec_origin(),
                self.spec_last_event_id(),
                self.spec_query().spec_filter(),
                QE::spec_schema().event_names(),
            ),
    {
        let condition = match self.query.filter() {
            Some(f) => self.eval(f),
            None => String::from_str("true"),
        };
        let names = QE::schema().events;
        let ghost nv = strs_view(names@);
        let ghost quote = |n: Seq<char>| "'"@ + n + "'"@;
        let mut names_condition = String::new();
        if names.len() == 0 {
            names_condition.append("true");
        } else {
            let mut list = String::new();
            let mut i: usize = 0;
            proof {
                assert(nv.take(0).map_values(quote) =~= Seq::<Seq<char>>::empty());
            }
            while i < names.len()
                invariant
                    i <= names@.len(),
                    nv == strs_view(names@),
                    quote == (|n: Seq<char>| "'"@ + n + "'"@),
                    list@ == join(nv.take(i as int).map_values(quote), ","@),
                decreases names@.len() - i,
            {
                let ghost prev = nv.take(i as int).map_values(quote);
                if i > 0 {
                    list.append(",");
                }
                list.append("'");
                list.append(names[i]);
                list.append("'");
                proof {
                    assert(nv.take(i + 1).map_values(quote) =~= prev.push(quote(nv[i as int])));
                    lemma_join_push(prev, ","@, quote(nv[i as int]));
                    if i == 0 {
                        assert(join(prev, ","@) =~= Seq::<char>::empty());
                    }
                }
                i = i + 1;
            }
            proof {
                assert(nv.take(i as int) =~= nv);
            }
            names_condition.append("event_type IN (");
            names_condition.append(list.as_str());
            names_condition.append(")");
        }
        let mut s = String::from_str("(id >= ");
        push_i64_decimal(&mut s, self.origin);
        s.append(" AND ");
        match self.last_event_id {
            None => {
                s.append("true");
            },
            Some(id) => {
                s.append("id <= ");
                push_i64_decimal(&mut s, id);
            },
        }
        s.append(") AND (");
        s.append(condition.as_str());
        s.append(") AND ");
        s.append(names_condition.as_str());
        s
    }
}

} // verus!
