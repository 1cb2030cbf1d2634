//! The sqlx query builder as the library uses it: its SQL text and the values bound to it,
//! and one trusted item per builder method that the library calls.
use vstd::prelude::*;
use sqlx::{Postgres, QueryBuilder};

use vstd::utf8::encode_utf8;

use crate::text::nat_decimal;

verus! {

/// An sqlx query builder for PostgreSQL. Verus refuses a declaration of
/// `sqlx::QueryBuilder` itself (its generic parameter is bound by the outside trait
/// `sqlx::Database`), so the library holds the builder here; the field is public for the
/// code that executes the built query.
#[verifier::external_body]
pub struct PgQueryBuilder(pub QueryBuilder<'static, Postgres>);

/// A value bound to a query: text, an integer, a UUID (by its 128-bit value) or bytes.
pub enum BindView {
    Text(Seq<char>),
    Int(i64),
    Uuid(u128),
    Bytes(Seq<u8>),
}

/// Whether sqlx can encode the value for PostgreSQL: the length in bytes of a text or of a
/// byte string must fit an `i32`.
pub open spec fn encodable(v: BindView) -> bool {
    match v {
        BindView::Text(s) => encode_utf8(s).len() <= i32::MAX,
        BindView::Bytes(b) => b.len() <= i32::MAX,
        _ => true,
    }
}

/// The placeholder that PostgreSQL arguments write for the `n`-th bound value: `$n`.
pub open spec fn placeholder(n: nat) -> Seq<char> {
    seq!['$'] + nat_decimal(n)
}

/// The SQL text that a query builder holds.
pub uninterp spec fn builder_sql(qb: PgQueryBuilder) -> Seq<char>;

/// The values bound to a query builder, in order; `None` once the arguments were taken by
/// `build`, after which the builder refuses any further push.
pub uninterp spec fn builder_arguments(qb: PgQueryBuilder) -> Option<Seq<BindView>>;

/// Whether the builder still holds its arguments, so that pushes are accepted.
pub open spec fn builder_open(qb: PgQueryBuilder) -> bool {
    builder_arguments(qb) is Some
}

/// The number of values bound so far.
pub open spec fn bound_count(qb: PgQueryBuilder) -> nat {
    match builder_arguments(qb) {
        Some(a) => a.len(),
        None => 0,
    }
}

/// Calls `QueryBuilder::new`: the text starts as `init` and no value is bound.
#[verifier::external_body]
pub(crate) fn new_builder(init: String) -> (r: PgQueryBuilder)
    ensures
        builder_sql(r) == init@,
        builder_arguments(r) == Some(Seq::<BindView>::empty()),
{
    PgQueryBuilder(QueryBuilder::new(init))
}

/// Calls `QueryBuilder::push` with a string: its display text is appended, the arguments
/// are unchanged. The builder panics once its arguments were taken.
#[verifier::external_body]
pub(crate) fn push_sql(qb: &mut PgQueryBuilder, sql: &str)
    requires
        builder_open(*old(qb)),
    ensures
        builder_sql(*final(qb)) == builder_sql(*old(qb)) + sql@,
        builder_arguments(*final(qb)) == builder_arguments(*old(qb)),
{
    qb.0.push(sql);
}

/// Calls `QueryBuilder::push_bind` with a `String`: the value is added to the arguments and
/// the placeholder of its position is appended to the text. The encoding panics when the
/// text is longer than `i32::MAX` bytes.
#[verifier::external_body]
pub(crate) fn push_bind_text(qb: &mut PgQueryBuilder, value: String)
    requires
        builder_open(*old(qb)),
        encode_utf8(value@).len() <= i32::MAX,
    ensures
        builder_arguments(*final(qb)) == Some(builder_arguments(*old(qb))->0.push(BindView::Text(value@))),
        builder_sql(*final(qb)) == builder_sql(*old(qb)) + placeholder(bound_count(*old(qb)) + 1),
{
    qb.0.push_bind(value);
}

/// Calls `QueryBuilder::push_bind` with an `i64`, as `push_bind_text` does.
#[verifier::external_body]
pub(crate) fn push_bind_int(qb: &mut PgQueryBuilder, value: i64)
    requires
        builder_open(*old(qb)),
    ensures
        builder_arguments(*final(qb)) == Some(builder_arguments(*old(qb))->0.push(BindView::Int(value))),
        builder_sql(*final(qb)) == builder_sql(*old(qb)) + placeholder(bound_count(*old(qb)) + 1),
{
    qb.0.push_bind(value);
}

/// Calls `QueryBuilder::push_bind` with the `uuid::Uuid` of the given 128-bit value
/// (`Uuid::from_u128`), as `push_bind_text` does.
#[verifier::external_body]
pub(crate) fn push_bind_uuid(qb: &mut PgQueryBuilder, value: u128)
    requires
        builder_open(*old(qb)),
    ensures
        builder_arguments(*final(qb)) == Some(builder_arguments(*old(qb))->0.push(BindView::Uuid(value))),
        builder_sql(*final(qb)) == builder_sql(*old(qb)) + placeholder(bound_count(*old(qb)) + 1),
{
    qb.0.push_bind(uuid::Uuid::from_u128(value));
}

/// Calls `QueryBuilder::push_bind` with a byte vector, as `push_bind_text` does; the
/// encoding panics when it is longer than `i32::MAX` bytes.
#[verifier::external_body]
pub(crate) fn push_bind_bytes(qb: &mut PgQueryBuilder, value: Vec<u8>)
    requires
        builder_open(*old(qb)),
        value@.len() <= i32::MAX,
    ensures
        builder_arguments(*final(qb)) == Some(builder_arguments(*old(qb))->0.push(BindView::Bytes(value@))),
        builder_sql(*final(qb)) == builder_sql(*old(qb)) + placeholder(bound_count(*old(qb)) + 1),
{
    qb.0.push_bind(value);
}

} // verus!
