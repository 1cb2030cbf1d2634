use vstd::prelude::*;

use crate::text::{i64_to_decimal, int_decimal};
use crate::utils::eq;

verus! {

/// The pattern every identifier matches.
pub open spec fn ident_pattern() -> Seq<char> {
    "^[a-zA-Z_][a-zA-Z0-9_]*$"@
}

pub open spec fn is_ident_start(c: char) -> bool {
    ('a' <= c && c <= 'z') || ('A' <= c && c <= 'Z') || c == '_'
}

pub open spec fn is_ident_continue(c: char) -> bool {
    is_ident_start(c) || ('0' <= c && c <= '9')
}

/// A string is a valid identifier when it is non-empty, starts with an ASCII letter or `_`
/// and continues with ASCII letters, digits or `_`.
pub open spec fn is_identifier_text(s: Seq<char>) -> bool {
    &&& s.len() > 0
    &&& is_ident_start(s[0])
    &&& forall|i: int| 1 <= i < s.len() ==> is_ident_continue(#[trigger] s[i])
}

/// What `regex::Regex::is_match` answers for a pattern and a text.
pub uninterp spec fn regex_is_match(pattern: Seq<char>, text: Seq<char>) -> bool;

/// Calls `regex::Regex::new` on `pattern` and then `Regex::is_match` on `text`, giving
/// `None` when the pattern does not compile. Claims: a `Some` holds the answer of
/// `is_match`; for the anchored identifier pattern (which compiles), the regex
/// documentation gives that answer directly: the whole text matches `[a-zA-Z_][a-zA-Z0-9_]*`.
/// When other patterns fail to compile is not stated.
#[verifier::external_body]
fn regex_match(pattern: &str, text: &str) -> (r: Option<bool>)
    ensures
        r matches Some(b) ==> b == regex_is_match(pattern@, text@),
        pattern@ == ident_pattern() ==> r == Some(is_identifier_text(text@)),
{
    match regex::Regex::new(pattern) {
        Ok(re) => Some(re.is_match(text)),
        Err(_) => None,
    }
}

/// The message of the error returned for an invalid identifier.
pub open spec fn invalid_identifier_message(s: Seq<char>) -> Seq<char> {
    "Invalid identifier: "@ + s
}

/// A string value that adheres to the identifier rules.
#[derive(Debug, Clone, Copy, PartialEq, Eq, PartialOrd, Ord, Hash)]
pub struct Identifier(&'static str);

impl View for Identifier {
    type V = Seq<char>;

    closed spec fn view(&self) -> Seq<char> {
        self.0@
    }
}

impl Identifier {
    /// Creates an identifier, refusing any string that is not a valid identifier.
    pub fn new(s: &'static str) -> (r: Result<Identifier, IdentifierError>)
        ensures
            r is Ok <==> is_identifier_text(s@),
            r matches Ok(id) ==> id@ == s@,
            r matches Err(e) ==> e@ == invalid_identifier_message(s@),
    {
        if !Self::is_valid_identifier(s) {
            let mut message = String::from_str("Invalid identifier: ");
            message.append(s);
            return Err(IdentifierError::new(message.as_str()));
        }
        Ok(Identifier(s))
    }

    /// Whether `s` is a valid identifier.
    pub fn is_valid_identifier(s: &str) -> (r: bool)
        ensures
            r == is_identifier_text(s@),
    {
        match regex_match("^[a-zA-Z_][a-zA-Z0-9_]*$", s) {
            Some(b) => b,
            None => false,
        }
    }

    /// The inner string value of the identifier.
    pub fn into_inner(&self) -> (r: &'static str)
        ensures
            r@ == self@,
    {
        self.0
    }

    /// The identifier as an owned string (its display form).
    pub fn to_string(&self) -> (r: String)
        ensures
            r@ == self@,
    {
        String::from_str(self.0)
    }
}

impl TryFrom<&'static str> for Identifier {
    type Error = IdentifierError;

    /// Parses an identifier, as `Identifier::new` does.
    fn try_from(value: &'static str) -> (r: Result<Identifier, IdentifierError>)
        ensures
            r is Ok <==> is_identifier_text(value@),
            r matches Ok(id) ==> id@ == value@,
            r matches Err(e) ==> e@ == invalid_identifier_message(value@),
    {
        Identifier::new(value)
    }
}

/// The generic conversion law of vstd is not claimed: the error carries a `String`, which no
/// spec value can build; `try_from` states its own contract above.
impl vstd::std_specs::convert::TryFromSpecImpl<&'static str> for Identifier {
    open spec fn obeys_try_from_spec() -> bool {
        false
    }

    closed spec fn try_from_spec(v: &'static str) -> Result<Identifier, IdentifierError> {
        if is_identifier_text(v@) {
            Ok(Identifier(v))
        } else {
            Err(arbitrary())
        }
    }
}

impl std::ops::Deref for Identifier {
    type Target = &'static str;

    /// The inner string value of the identifier.
    fn deref(&self) -> (r: &&'static str)
        ensures
            (*r)@ == self@,
    {
        &self.0
    }
}

/// The error returned when a string is not a valid identifier.
#[derive(Debug)]
pub struct IdentifierError(String);

impl View for IdentifierError {
    type V = Seq<char>;

    closed spec fn view(&self) -> Seq<char> {
        self.0@
    }
}

impl IdentifierError {
    fn new(s: &str) -> (r: IdentifierError)
        ensures
            r@ == s@,
    {
        IdentifierError(String::from_str(s))
    }

    /// The error message (its display form).
    pub fn to_string(&self) -> (r: String)
        ensures
            r@ == self@,
    {
        self.0.clone()
    }
}

/// The columns of the event table that no domain identifier may take.
pub open spec fn reserved_names() -> Seq<Seq<char>> {
    seq!["event_id"@, "payload"@, "event_type"@, "inserted_at"@]
}

/// Whether a domain identifier would take the name of a column of the event table.
pub fn is_reserved_name(name: &str) -> (r: bool)
    ensures
        r == reserved_names().contains(name@),
{
    let reserved = eq(name, "event_id") || eq(name, "payload") || eq(name, "event_type") || eq(name, "inserted_at");
    proof {
        let rs = reserved_names();
        if reserved {
            if name@ == "event_id"@ {
                assert(rs[0] == name@);
            } else if name@ == "payload"@ {
                assert(rs[1] == name@);
            } else if name@ == "event_type"@ {
                assert(rs[2] == name@);
            } else {
                assert(rs[3] == name@);
            }
        }
    }
    reserved
}

/// The index of the first identifier whose name is reserved, or `None` when no name is.
pub fn first_reserved_identifier(idents: &[Identifier]) -> (r: Option<usize>)
    ensures
        r is None <==> forall|i: int| 0 <= i < idents@.len() ==> !reserved_names().contains(
            (#[trigger] idents@[i])@,
        ),
        r matches Some(i) ==> i < idents@.len() && reserved_names().contains(idents@[i as int]@)
            && forall|j: int| 0 <= j < i ==> !reserved_names().contains((#[trigger] idents@[j])@),
{
    let mut i: usize = 0;
    while i < idents.len()
        invariant
            i <= idents@.len(),
            forall|j: int| 0 <= j < i ==> !reserved_names().contains((#[trigger] idents@[j])@),
        decreases idents@.len() - i,
    {
        if is_reserved_name(idents[i].into_inner()) {
            return Some(i);
        }
        i = i + 1;
    }
    None
}

/// The type of an identifier value.
#[allow(non_camel_case_types)]
#[derive(Debug, Clone, Copy, PartialEq, Eq)]
pub enum IdentifierType {
    String,
    i64,
    Uuid,
}

/// The abstract value of an identifier value.
pub enum IdValue {
    Text(Seq<char>),
    Int(i64),
    Uuid(u128),
}

/// The value of a domain identifier: a string, an integer or a UUID (held as its 128-bit value).
#[allow(non_camel_case_types)]
#[derive(Debug)]
pub enum IdentifierValue {
    String(String),
    i64(i64),
    Uuid(u128),
}

impl View for IdentifierValue {
    type V = IdValue;

    open spec fn view(&self) -> IdValue {
        match self {
            IdentifierValue::String(s) => IdValue::Text(s@),
            IdentifierValue::i64(i) => IdValue::Int(*i),
            IdentifierValue::Uuid(u) => IdValue::Uuid(*u),
        }
    }
}

/// The lowercase hexadecimal digit of a value below sixteen.
pub open spec fn hex_digit(d: nat) -> char {
    if d < 10 {
        (48 + d) as char
    } else {
        (87 + d) as char
    }
}

/// The `n` lowest hexadecimal digits of `v`, the most significant first.
pub open spec fn hex_digits(v: nat, n: nat) -> Seq<char>
    decreases n,
{
    if n == 0 {
        Seq::empty()
    } else {
        hex_digits(v / 16, (n - 1) as nat).push(hex_digit(v % 16))
    }
}

/// The hyphenated lowercase text of the UUID of a 128-bit value: its 32 hexadecimal digits
/// in groups of 8, 4, 4, 4 and 12.
pub open spec fn uuid_text(value: u128) -> Seq<char> {
    let h = hex_digits(value as nat, 32);
    h.subrange(0, 8) + "-"@ + h.subrange(8, 12) + "-"@ + h.subrange(12, 16) + "-"@ + h.subrange(16, 20) + "-"@
        + h.subrange(20, 32)
}

/// Calls `uuid::Uuid::from_u128` (the value read big-endian) and renders the UUID with
/// `to_string`, whose text the `uuid` documentation gives: hyphenated and lowercase.
#[verifier::external_body]
fn uuid_to_string(value: u128) -> (r: String)
    ensures
        r@ == uuid_text(value),
{
    uuid::Uuid::from_u128(value).to_string()
}

/// The display text of an identifier value.
pub open spec fn id_value_text(v: IdValue) -> Seq<char> {
    match v {
        IdValue::Text(s) => s,
        IdValue::Int(i) => int_decimal(i as int),
        IdValue::Uuid(u) => uuid_text(u),
    }
}

impl IdentifierValue {
    /// Whether two values are equal.
    pub fn same_as(&self, other: &IdentifierValue) -> (r: bool)
        ensures
            r == (self@ == other@),
    {
        match (self, other) {
            (IdentifierValue::String(a), IdentifierValue::String(b)) => *a == *b,
            (IdentifierValue::i64(a), IdentifierValue::i64(b)) => *a == *b,
            (IdentifierValue::Uuid(a), IdentifierValue::Uuid(b)) => *a == *b,
            _ => false,
        }
    }

    /// The display text of the value.
    pub fn to_string(&self) -> (r: String)
        ensures
            r@ == id_value_text(self@),
    {
        match self {
            IdentifierValue::String(s) => s.clone(),
            IdentifierValue::i64(i) => i64_to_decimal(*i),
            IdentifierValue::Uuid(u) => uuid_to_string(*u),
        }
    }

    /// The type of the value.
    pub fn identifier_type(&self) -> (r: IdentifierType)
        ensures
            r == match self@ {
                IdValue::Text(_) => IdentifierType::String,
                IdValue::Int(_) => IdentifierType::i64,
                IdValue::Uuid(_) => IdentifierType::Uuid,
            },
    {
        match self {
            IdentifierValue::String(_) => IdentifierType::String,
            IdentifierValue::i64(_) => IdentifierType::i64,
            IdentifierValue::Uuid(_) => IdentifierType::Uuid,
        }
    }
}

impl Clone for IdentifierValue {
    fn clone(&self) -> (r: Self)
        ensures
            r == *self,
    {
        match self {
            IdentifierValue::String(s) => IdentifierValue::String(s.clone()),
            IdentifierValue::i64(i) => IdentifierValue::i64(*i),
            IdentifierValue::Uuid(u) => IdentifierValue::Uuid(*u),
        }
    }
}

impl PartialEq for IdentifierValue {
    fn eq(&self, other: &Self) -> (r: bool) {
        self.same_as(other)
    }
}

impl vstd::std_specs::cmp::PartialEqSpecImpl for IdentifierValue {
    open spec fn obeys_eq_spec() -> bool {
        true
    }

    open spec fn eq_spec(&self, other: &IdentifierValue) -> bool {
        self@ == other@
    }
}

impl Eq for IdentifierValue {}

/// A value that can be used as an identifier value.
pub trait IntoIdentifierValue {
    /// The type of the converted value.
    fn identifier_type() -> IdentifierType;

    /// Converts the value into an identifier value.
    fn into_identifier_value(self) -> IdentifierValue;
}

impl IntoIdentifierValue for String {
    fn identifier_type() -> (r: IdentifierType)
        ensures
            r == IdentifierType::String,
    {
        IdentifierType::String
    }

    fn into_identifier_value(self) -> (r: IdentifierValue)
        ensures
            r@ == IdValue::Text(self@),
    {
        IdentifierValue::String(self)
    }
}

impl IntoIdentifierValue for &String {
    fn identifier_type() -> (r: IdentifierType)
        ensures
            r == IdentifierType::String,
    {
        IdentifierType::String
    }

    fn into_identifier_value(self) -> (r: IdentifierValue)
        ensures
            r@ == IdValue::Text(self@),
    {
        IdentifierValue::String(self.clone())
    }
}

impl IntoIdentifierValue for &str {
    fn identifier_type() -> (r: IdentifierType)
        ensures
            r == IdentifierType::String,
    {
        IdentifierType::String
    }

    fn into_identifier_value(self) -> (r: IdentifierValue)
        ensures
            r@ == IdValue::Text(self@),
    {
        IdentifierValue::String(String::from_str(self))
    }
}

impl IntoIdentifierValue for i64 {
    fn identifier_type() -> (r: IdentifierType)
        ensures
            r == IdentifierType::i64,
    {
        IdentifierType::i64
    }

    fn into_identifier_value(self) -> (r: IdentifierValue)
        ensures
            r@ == IdValue::Int(self),
    {
        IdentifierValue::i64(self)
    }
}

impl IntoIdentifierValue for &i64 {
    fn identifier_type() -> (r: IdentifierType)
        ensures
            r == IdentifierType::i64,
    {
        IdentifierType::i64
    }

    fn into_identifier_value(self) -> (r: IdentifierValue)
        ensures
            r@ == IdValue::Int(*self),
    {
        IdentifierValue::i64(*self)
    }
}

/// Declares the outside type `uuid::Uuid` so that it can stand in signatures; its value is
/// opaque here.
#[verifier::external_type_specification]
#[verifier::external_body]
pub struct ExUuid(uuid::Uuid);

/// The UUID that `uuid::Uuid::from_u128` builds from a 128-bit value (its big-endian bytes).
pub uninterp spec fn uuid_of_bits(bits: u128) -> uuid::Uuid;

/// Calls `uuid::Uuid::as_u128`: the big-endian 128-bit value of the UUID's bytes. Claims,
/// as the source shows (`u128::from_be_bytes` of the bytes, inverse of `from_u128`'s
/// `to_be_bytes`), that `from_u128` gives the UUID back from the result and from no other value.
#[verifier::external_body]
fn uuid_bits(u: &uuid::Uuid) -> (r: u128)
    ensures
        uuid_of_bits(r) == *u,
        forall|bits: u128| uuid_of_bits(bits) == *u ==> bits == r,
{
    u.as_u128()
}

impl IntoIdentifierValue for uuid::Uuid {
    fn identifier_type() -> (r: IdentifierType)
        ensures
            r == IdentifierType::Uuid,
    {
        IdentifierType::Uuid
    }

    fn into_identifier_value(self) -> (r: IdentifierValue)
        ensures
            r@ matches IdValue::Uuid(bits) && uuid_of_bits(bits) == self,
    {
        IdentifierValue::Uuid(uuid_bits(&self))
    }
}

impl IntoIdentifierValue for &uuid::Uuid {
    fn identifier_type() -> (r: IdentifierType)
        ensures
            r == IdentifierType::Uuid,
    {
        IdentifierType::Uuid
    }

    fn into_identifier_value(self) -> (r: IdentifierValue)
        ensures
            r@ matches IdValue::Uuid(bits) && uuid_of_bits(bits) == *self,
    {
        IdentifierValue::Uuid(uuid_bits(self))
    }
}

} // verus!
