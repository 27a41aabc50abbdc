use vstd::prelude::*;
use vstd::std_specs::convert::FromSpecImpl;
use vstd::string::StringExecFns;
use crate::stringpool::{
    distinct, interned, interned_number, live_at, live_count, released, Slot, StringPool, StringRef,
};


verus! {

/// A value from one cell in a database table row.
#[derive(Clone, Debug, Eq, Hash, Ord, PartialEq, PartialOrd)]
pub enum Value {
    /// A null value.
    Null,
    /// An integer value.
    Int(i32),
    /// A string value.
    Str(String),
}

/// The mathematical content of a `Value`: its tag, and the number or the
/// text that it carries.
pub enum ValueView {
    Null,
    Int(i32),
    Str(Seq<char>),
}

impl View for Value {
    type V = ValueView;

    open spec fn view(&self) -> ValueView {
        match *self {
            Value::Null => ValueView::Null,
            Value::Int(number) => ValueView::Int(number),
            Value::Str(string) => ValueView::Str(string@),
        }
    }
}

/// What `Value::to_bool` computes: false for null, zero and the empty
/// string, true for everything else.
pub open spec fn truthy(value: ValueView) -> bool {
    match value {
        ValueView::Null => false,
        ValueView::Int(number) => number != 0,
        ValueView::Str(text) => text.len() != 0,
    }
}

impl Value {
    /// Returns true if this is a null value.
    pub fn is_null(&self) -> (r: bool)
        ensures
            r == (self@ == ValueView::Null),
    {
        match *self {
            Value::Null => true,
            _ => false,
        }
    }

    /// Returns true if this is an integer value.
    pub fn is_int(&self) -> (r: bool)
        ensures
            r == (self@ is Int),
    {
        match *self {
            Value::Int(_) => true,
            _ => false,
        }
    }

    /// Extracts the integer value if it is an integer.
    pub fn as_int(&self) -> (r: Option<i32>)
        ensures
            self@ is Int ==> r == Some(self@->Int_0),
            !(self@ is Int) ==> r.is_none(),
    {
        match *self {
            Value::Null => None,
            Value::Int(number) => Some(number),
            Value::Str(_) => None,
        }
    }

    /// Returns true if this is a string value.
    pub fn is_str(&self) -> (r: bool)
        ensures
            r == (self@ is Str),
    {
        match *self {
            Value::Str(_) => true,
            _ => false,
        }
    }

    /// Extracts the string value if it is a string.
    pub fn as_str(&self) -> (r: Option<&str>)
        ensures
            self@ is Str ==> r.is_some() && r.unwrap()@ == self@->Str_0,
            !(self@ is Str) ==> r.is_none(),
    {
        match *self {
            Value::Null => None,
            Value::Int(_) => None,
            Value::Str(ref string) => Some(string.as_str()),
        }
    }

    /// Creates a boolean value: one for true, zero for false.
    pub fn from_bool(boolean: bool) -> (r: Value)
        ensures
            r@ == ValueView::Int(if boolean { 1i32 } else { 0i32 }),
    {
        if boolean {
            Value::Int(1)
        } else {
            Value::Int(0)
        }
    }

    /// Coerces the `Value` to a boolean.  Returns false for null, zero, and
    /// empty string; returns true for all other values.
    pub fn to_bool(&self) -> (r: bool)
        ensures
            r == truthy(self@),
    {
        match *self {
            Value::Null => false,
            Value::Int(number) => number != 0,
            Value::Str(ref string) => !string.as_str().is_empty(),
        }
    }
}

/// The decimal digits of a natural number, without leading zeros.
pub open spec fn decimal_digits(n: nat) -> Seq<char>
    decreases n,
{
    if n < 10 {
        "0123456789"@.subrange(n as int, n as int + 1)
    } else {
        decimal_digits(n / 10) + "0123456789"@.subrange((n % 10) as int, (n % 10) as int + 1)
    }
}

/// The decimal text of an integer: a minus sign before the digits of a
/// negative one.
pub open spec fn decimal_text(n: int) -> Seq<char> {
    if n < 0 {
        seq!['-'] + decimal_digits((-n) as nat)
    } else {
        decimal_digits(n as nat)
    }
}

/// The text of a string between double quotes, with the characters escaped
/// that Rust escapes when it prints a string for debugging.
pub uninterp spec fn debug_quoted(text: Seq<char>) -> Seq<char>;

/// The text that a value is shown as: `NULL`, the decimal number, or the
/// quoted string.
pub open spec fn shown(value: ValueView) -> Seq<char> {
    match value {
        ValueView::Null => "NULL"@,
        ValueView::Int(number) => decimal_text(number as int),
        ValueView::Str(text) => debug_quoted(text),
    }
}

/// Returns the decimal digits of `n`.
fn natural_text(n: u32) -> (text: String)
    ensures
        text@ == decimal_digits(n as nat),
{
    let digits = "0123456789";
    proof {
        reveal_strlit("0123456789");
    }
    let last: usize = (n % 10) as usize;
    let mut text = String::from_str(digits.substring_ascii(last, last + 1));
    let mut rest: u32 = n / 10;
    while rest > 0
        invariant
            digits@ == "0123456789"@,
            digits@.len() == 10,
            digits.is_ascii(),
            decimal_digits(n as nat) == (if rest == 0 {
                Seq::<char>::empty()
            } else {
                decimal_digits(rest as nat)
            }) + text@,
        decreases rest,
    {
        let digit: usize = (rest % 10) as usize;
        let head = String::from_str(digits.substring_ascii(digit, digit + 1));
        text = head.concat(text.as_str());
        rest = rest / 10;
        assert(decimal_digits(n as nat) =~= (if rest == 0 {
            Seq::<char>::empty()
        } else {
            decimal_digits(rest as nat)
        }) + text@);
    }
    assert(decimal_digits(n as nat) =~= text@);
    text
}

/// Returns the decimal text of `number`.
fn int_text(number: i32) -> (text: String)
    ensures
        text@ == decimal_text(number as int),
{
    if number < 0 {
        let magnitude: u32 = (-(number as i64)) as u32;
        let digits = natural_text(magnitude);
        proof {
            reveal_strlit("-");
            assert("-"@ =~= seq!['-']);
        }
        String::from_str("-").concat(digits.as_str())
    } else {
        natural_text(number as u32)
    }
}

/// The standard library's debug formatting of a string, `{:?}`.  The
/// result is only named: the escaping rules are the standard library's.
#[verifier::external_body]
fn quoted_text(string: &str) -> (text: String)
    ensures
        text@ == debug_quoted(string@),
{
    format!("{:?}", string)
}

impl Value {
    /// Returns the text that the value is shown as: `NULL` for null, the
    /// decimal number for an integer, the quoted string for a string.
    pub fn to_text(&self) -> (text: String)
        ensures
            text@ == shown(self@),
    {
        match *self {
            Value::Null => "NULL".to_owned(),
            Value::Int(number) => int_text(number),
            Value::Str(ref string) => quoted_text(string.as_str()),
        }
    }
}

impl From<i16> for Value {
    fn from(integer: i16) -> (value: Value) {
        Value::Int(integer as i32)
    }
}

impl FromSpecImpl<i16> for Value {
    open spec fn obeys_from_spec() -> bool {
        true
    }

    open spec fn from_spec(integer: i16) -> Value {
        Value::Int(integer as i32)
    }
}

impl From<u16> for Value {
    fn from(integer: u16) -> (value: Value) {
        Value::Int(integer as i32)
    }
}

impl FromSpecImpl<u16> for Value {
    open spec fn obeys_from_spec() -> bool {
        true
    }

    open spec fn from_spec(integer: u16) -> Value {
        Value::Int(integer as i32)
    }
}

impl From<i32> for Value {
    fn from(integer: i32) -> (value: Value) {
        Value::Int(integer)
    }
}

impl FromSpecImpl<i32> for Value {
    open spec fn obeys_from_spec() -> bool {
        true
    }

    open spec fn from_spec(integer: i32) -> Value {
        Value::Int(integer)
    }
}

impl From<String> for Value {
    fn from(string: String) -> (value: Value) {
        Value::Str(string)
    }
}

impl FromSpecImpl<String> for Value {
    open spec fn obeys_from_spec() -> bool {
        true
    }

    open spec fn from_spec(string: String) -> Value {
        Value::Str(string)
    }
}

impl<'a> From<&'a str> for Value {
    fn from(string: &'a str) -> (value: Value)
        ensures
            value@ == ValueView::Str(string@),
    {
        Value::Str(string.to_owned())
    }
}

/// What the conversion gives is stated by `from` itself, over the text:
/// a spec term cannot make an owned string from a borrowed one.
impl<'a> FromSpecImpl<&'a str> for Value {
    open spec fn obeys_from_spec() -> bool {
        false
    }

    open spec fn from_spec(string: &'a str) -> Value {
        Value::Null
    }
}

/// The uuid crate's `Uuid`, carried through as an opaque value.
#[verifier::external_type_specification]
#[verifier::external_body]
pub struct ExUuid(uuid::Uuid);

/// The sixteen bytes of a UUID, in the order in which it is written.
pub uninterp spec fn uuid_octets(uuid: uuid::Uuid) -> Seq<u8>;

/// The character for a hexadecimal digit, in lower case.
pub open spec fn hex_digit(nibble: int) -> char {
    "0123456789abcdef"@[nibble]
}

/// The number of hyphens before position `i` of a hyphenated UUID.
pub open spec fn hyphens_before(i: int) -> int {
    if i < 8 {
        0
    } else if i < 13 {
        1
    } else if i < 18 {
        2
    } else if i < 23 {
        3
    } else {
        4
    }
}

/// The hyphenated lower-case text of sixteen bytes: thirty-two hexadecimal
/// digits in groups of 8, 4, 4, 4 and 12, with a hyphen between groups.
pub open spec fn hyphenated_text(octets: Seq<u8>) -> Seq<char> {
    Seq::new(
        36,
        |i: int|
            if i == 8 || i == 13 || i == 18 || i == 23 {
                '-'
            } else {
                let k = i - hyphens_before(i);
                if k % 2 == 0 {
                    hex_digit(octets[k / 2] as int / 16)
                } else {
                    hex_digit(octets[k / 2] as int % 16)
                }
            },
    )
}

/// A character with an ASCII lower-case letter replaced by its upper-case
/// letter.
pub open spec fn upper_char(c: char) -> char {
    if 0x61 <= c as u32 <= 0x7a {
        (c as u32 - 0x20) as u8 as char
    } else {
        c
    }
}

/// A text with every ASCII lower-case letter replaced by its upper-case
/// letter.
pub open spec fn upper_text(text: Seq<char>) -> Seq<char> {
    Seq::new(text.len(), |i: int| upper_char(text[i]))
}

/// The text under which a UUID is stored in a cell: hyphenated, in upper
/// case, between braces.
pub open spec fn guid_text(octets: Seq<u8>) -> Seq<char> {
    seq!['{'] + upper_text(hyphenated_text(octets)) + seq!['}']
}

/// A UUID shown through `Uuid::hyphenated`: its bytes as lower-case
/// hexadecimal digits in groups of 8, 4, 4, 4 and 12 with hyphens between
/// them.  The result is taken on trust from the uuid crate.
#[verifier::external_body]
fn hyphenated(uuid: uuid::Uuid) -> (text: String)
    ensures
        text@ == hyphenated_text(uuid_octets(uuid)),
{
    format!("{}", uuid.hyphenated())
}

/// `str::to_ascii_uppercase`: a copy of the text with each ASCII lower-case
/// letter replaced by its upper-case letter.  The result is taken on trust
/// from the standard library.
#[verifier::external_body]
fn ascii_uppercase(string: &str) -> (text: String)
    ensures
        text@ == upper_text(string@),
{
    string.to_ascii_uppercase()
}

impl From<uuid::Uuid> for Value {
    /// Returns a string value containing the given UUID, suitable for
    /// storing in a column that holds GUIDs.
    fn from(uuid: uuid::Uuid) -> (value: Value)
        ensures
            value@ == ValueView::Str(guid_text(uuid_octets(uuid))),
    {
        let lower = hyphenated(uuid);
        let upper = ascii_uppercase(lower.as_str());
        let string = String::from_str("{").concat(upper.as_str()).concat("}");
        proof {
            reveal_strlit("{");
            reveal_strlit("}");
            assert("{"@ =~= seq!['{']);
            assert("}"@ =~= seq!['}']);
        }
        Value::Str(string)
    }
}

/// What the conversion gives is stated by `from` itself, over the UUID's
/// bytes.
impl FromSpecImpl<uuid::Uuid> for Value {
    open spec fn obeys_from_spec() -> bool {
        false
    }

    open spec fn from_spec(uuid: uuid::Uuid) -> Value {
        Value::Null
    }
}

/// Converting to a boolean and back keeps a boolean.
pub proof fn lemma_bool_round_trip(boolean: bool)
    ensures
        truthy(ValueView::Int(if boolean { 1i32 } else { 0i32 })) == boolean,
{
}

/// An indirect value from one cell in a database table row: a string is
/// held as a handle into a `StringPool`.
#[derive(Clone, Copy, Debug, Eq, PartialEq, Structural)]
pub enum ValueRef {
    /// A null value.
    Null,
    /// An integer value.
    Int(i32),
    /// A string value.
    Str(StringRef),
}

/// Whether `value_ref` can be read through a pool with these slots: a
/// string handle has to name a live slot.
pub open spec fn readable(value_ref: ValueRef, slots: Seq<Slot>) -> bool {
    match value_ref {
        ValueRef::Str(string_ref) => live_at(slots, string_ref.spec_number() - 1),
        _ => true,
    }
}

/// The value that `value_ref` stands for in a pool with these slots.
pub open spec fn deref_value(value_ref: ValueRef, slots: Seq<Slot>) -> ValueView
    recommends
        readable(value_ref, slots),
{
    match value_ref {
        ValueRef::Null => ValueView::Null,
        ValueRef::Int(number) => ValueView::Int(number),
        ValueRef::Str(string_ref) => ValueView::Str(slots[string_ref.spec_number() - 1].0),
    }
}

/// The slots of a pool after `value` is stored in it.
pub open spec fn stored(value: ValueView, slots: Seq<Slot>) -> Seq<Slot> {
    match value {
        ValueView::Str(text) => interned(slots, text),
        _ => slots,
    }
}

/// The reference that stands for `value` once it is stored in a pool with
/// these slots.
pub open spec fn created(value: ValueView, slots: Seq<Slot>) -> ValueRef {
    match value {
        ValueView::Null => ValueRef::Null,
        ValueView::Int(number) => ValueRef::Int(number),
        ValueView::Str(text) => ValueRef::Str(
            StringRef { number: interned_number(slots, text) as usize },
        ),
    }
}

/// The slots of a pool after `value_ref` is removed from it.
pub open spec fn removed(value_ref: ValueRef, slots: Seq<Slot>) -> Seq<Slot>
    recommends
        readable(value_ref, slots),
{
    match value_ref {
        ValueRef::Str(string_ref) => released(slots, string_ref.spec_number() as int),
        _ => slots,
    }
}

impl ValueRef {
    /// Interns the given value into the string pool (if it is a string), and
    /// returns a corresponding `ValueRef`.
    pub fn create(value: Value, string_pool: &mut StringPool) -> (value_ref: ValueRef)
        requires
            old(string_pool).wf(),
            value@ is Str ==> old(string_pool).has_room(value@->Str_0),
        ensures
            final(string_pool).wf(),
            final(string_pool)@ == stored(value@, old(string_pool)@),
            value_ref == created(value@, old(string_pool)@),
            readable(value_ref, final(string_pool)@),
            deref_value(value_ref, final(string_pool)@) == value@,
    {
        match value {
            Value::Null => ValueRef::Null,
            Value::Int(number) => ValueRef::Int(number),
            Value::Str(string) => ValueRef::Str(string_pool.incref(string)),
        }
    }

    /// Removes the reference from the string pool (if is a string reference).
    pub fn remove(self, string_pool: &mut StringPool)
        requires
            old(string_pool).wf(),
            readable(self, old(string_pool)@),
        ensures
            final(string_pool).wf(),
            final(string_pool)@ == removed(self, old(string_pool)@),
    {
        match self {
            ValueRef::Null | ValueRef::Int(_) => {},
            ValueRef::Str(string_ref) => string_pool.decref(string_ref),
        }
    }

    /// Dereferences the `ValueRef` into a `Value`.
    pub fn to_value(&self, string_pool: &StringPool) -> (value: Value)
        requires
            readable(*self, string_pool@),
        ensures
            value@ == deref_value(*self, string_pool@),
    {
        match *self {
            ValueRef::Null => Value::Null,
            ValueRef::Int(number) => Value::Int(number),
            ValueRef::Str(string_ref) => Value::Str(string_pool.get(string_ref).to_owned()),
        }
    }
}

/// Round trip: a value that is stored in a pool reads back as itself
/// through the reference that storing it gave.
pub proof fn lemma_create_round_trip(value: ValueView, slots: Seq<Slot>)
    requires
        distinct(slots),
        value is Str ==> interned_number(slots, value->Str_0) <= usize::MAX,
    ensures
        readable(created(value, slots), stored(value, slots)),
        deref_value(created(value, slots), stored(value, slots)) == value,
{
    if let ValueView::Str(text) = value {
        crate::stringpool::lemma_interned_distinct(slots, text);
    }
}

/// Balance: a value that is stored in a pool and removed again through the
/// reference that storing it gave leaves the number of live slots as it
/// was.
pub proof fn lemma_create_remove(value: ValueView, slots: Seq<Slot>)
    requires
        distinct(slots),
        value is Str ==> interned_number(slots, value->Str_0) <= usize::MAX,
    ensures
        live_count(removed(created(value, slots), stored(value, slots))) == live_count(slots),
{
    if let ValueView::Str(text) = value {
        crate::stringpool::lemma_interned_released(slots, text);
    }
}

} // verus!
