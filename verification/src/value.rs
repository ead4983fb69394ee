//! The PackStream value model.

use vstd::prelude::*;
use vstd::std_specs::convert::FromSpecImpl;
use vstd::string::StringExecFns;

verus! {

/// A dynamically typed PackStream value.
///
/// `Float` holds the IEEE-754 bit pattern of a 64-bit float, so equality is
/// bit-exact. `Dictionary` is the map variant: it holds its entries in the
/// order in which they go to the wire, and a well-formed one names no key
/// twice. Two dictionaries are equal under `==` where they hold the same
/// entries in the same order.
#[derive(Debug, PartialEq, Eq)]
pub enum Value {
    Null,
    Boolean(bool),
    Integer(i64),
    Float(u64),
    String(String),
    List(Vec<Value>),
    Dictionary(Vec<(String, Value)>),
    Structure { signature: u8, fields: Vec<Value> },
}

/// The mathematical content of a [`Value`].
pub enum Term {
    Null,
    Boolean(bool),
    Integer(i64),
    Float(u64),
    String(Seq<char>),
    List(Seq<Term>),
    Dictionary(Seq<(Seq<char>, Term)>),
    Structure { signature: u8, fields: Seq<Term> },
}

/// What a value holds, as a term.
pub open spec fn term_of(v: Value) -> Term
    decreases v,
{
    match v {
        Value::Null => Term::Null,
        Value::Boolean(b) => Term::Boolean(b),
        Value::Integer(n) => Term::Integer(n),
        Value::Float(bits) => Term::Float(bits),
        Value::String(s) => Term::String(s@),
        Value::List(items) => Term::List(
            Seq::new(
                items@.len(),
                |i: int|
                    if 0 <= i < items@.len() {
                        term_of(items@[i])
                    } else {
                        Term::Null
                    },
            ),
        ),
        Value::Dictionary(entries) => Term::Dictionary(
            Seq::new(
                entries@.len(),
                |i: int|
                    if 0 <= i < entries@.len() {
                        (entries@[i].0@, term_of(entries@[i].1))
                    } else {
                        (Seq::empty(), Term::Null)
                    },
            ),
        ),
        Value::Structure { signature, fields } => Term::Structure {
            signature,
            fields: Seq::new(
                fields@.len(),
                |i: int|
                    if 0 <= i < fields@.len() {
                        term_of(fields@[i])
                    } else {
                        Term::Null
                    },
            ),
        },
    }
}

impl View for Value {
    type V = Term;

    open spec fn view(&self) -> Term {
        term_of(*self)
    }
}

/// The contents of a sequence of values, item by item.
pub open spec fn terms_of(items: Seq<Value>) -> Seq<Term> {
    Seq::new(items.len(), |i: int| items[i]@)
}

/// The contents of a sequence of dictionary entries, entry by entry.
pub open spec fn entries_of(entries: Seq<(String, Value)>) -> Seq<(Seq<char>, Term)> {
    Seq::new(entries.len(), |i: int| (entries[i].0@, entries[i].1@))
}

/// The view of a container is the container of its items' views.
pub proof fn lemma_view(v: Value)
    ensures
        v matches Value::List(items) ==> v@ == Term::List(terms_of(items@)),
        v matches Value::Dictionary(entries) ==> v@ == Term::Dictionary(entries_of(entries@)),
        v matches Value::Structure { signature, fields } ==> v@ == (Term::Structure {
            signature,
            fields: terms_of(fields@),
        }),
{
    match v {
        Value::List(items) => {
            assert(v@->List_0 =~= terms_of(items@));
        },
        Value::Dictionary(entries) => {
            assert(v@->Dictionary_0 =~= entries_of(entries@));
        },
        Value::Structure { signature, fields } => {
            assert(v@->fields =~= terms_of(fields@));
        },
        _ => {},
    }
}

/// No key occurs twice among `entries`.
pub open spec fn distinct_keys(entries: Seq<(Seq<char>, Term)>) -> bool {
    forall|i: int, j: int|
        0 <= i < j < entries.len() ==> (#[trigger] entries[i]).0 != (#[trigger] entries[j]).0
}

/// Every dictionary inside `t`, at any depth, names each of its keys once.
pub open spec fn well_formed(t: Term) -> bool
    decreases t,
{
    match t {
        Term::List(items) => forall|i: int|
            0 <= i < items.len() ==> well_formed(#[trigger] items[i]),
        Term::Dictionary(entries) => distinct_keys(entries) && forall|i: int|
            0 <= i < entries.len() ==> well_formed((#[trigger] entries[i]).1),
        Term::Structure { signature, fields } => forall|i: int|
            0 <= i < fields.len() ==> well_formed(#[trigger] fields[i]),
        _ => true,
    }
}

/// Copies a vector of values.
pub fn clone_values(items: &Vec<Value>) -> (out: Vec<Value>)
    ensures
        terms_of(out@) == terms_of(items@),
    decreases items,
{
    let mut out: Vec<Value> = Vec::new();
    let mut i: usize = 0;
    while i < items.len()
        invariant
            i <= items.len(),
            out.len() == i,
            forall|j: int| 0 <= j < i ==> out[j]@ == items[j]@,
        decreases items.len() - i,
    {
        out.push(items[i].clone());
        i += 1;
    }
    assert(terms_of(out@) =~= terms_of(items@));
    out
}

/// Copies a vector of dictionary entries.
pub fn clone_entries(entries: &Vec<(String, Value)>) -> (out: Vec<(String, Value)>)
    ensures
        entries_of(out@) == entries_of(entries@),
    decreases entries,
{
    let mut out: Vec<(String, Value)> = Vec::new();
    let mut i: usize = 0;
    while i < entries.len()
        invariant
            i <= entries.len(),
            out.len() == i,
            forall|j: int| 0 <= j < i ==> out[j].0@ == entries[j].0@ && out[j].1@ == entries[j].1@,
        decreases entries.len() - i,
    {
        out.push((entries[i].0.clone(), entries[i].1.clone()));
        i += 1;
    }
    assert(entries_of(out@) =~= entries_of(entries@));
    out
}

impl Clone for Value {
    fn clone(&self) -> (out: Value)
        ensures
            out@ == self@,
        decreases self,
    {
        proof {
            lemma_view(*self);
        }
        let out = match self {
            Value::Null => Value::Null,
            Value::Boolean(b) => Value::Boolean(*b),
            Value::Integer(n) => Value::Integer(*n),
            Value::Float(bits) => Value::Float(*bits),
            Value::String(s) => Value::String(s.clone()),
            Value::List(items) => Value::List(clone_values(items)),
            Value::Dictionary(entries) => Value::Dictionary(clone_entries(entries)),
            Value::Structure { signature, fields } => Value::Structure {
                signature: *signature,
                fields: clone_values(fields),
            },
        };
        proof {
            lemma_view(out);
        }
        out
    }
}

/// Why a value could not be written to, or read from, its wire form.
#[derive(Clone, Copy, Debug, PartialEq, Eq, Structural)]
pub enum CodecError {
    /// The input ends in the middle of a value.
    DecodeTruncated,
    /// A value starts with a byte that is no marker.
    DecodeMarker,
    /// A dictionary key is not a string.
    DecodeMapKey,
    /// The bytes of a string are not UTF-8.
    DecodeText,
    /// A string or a container is longer than its widest header can say.
    EncodeTooLarge,
}

/// Whether the key of the entry at `index` occurs among the entries before it.
fn key_occurs_before(entries: &Vec<(String, Value)>, index: usize) -> (found: bool)
    requires
        index < entries.len(),
    ensures
        found == exists|j: int|
            0 <= j < index && (#[trigger] entries_of(entries@)[j]).0 == entries_of(
                entries@,
            )[index as int].0,
{
    let mut j: usize = 0;
    while j < index
        invariant
            j <= index < entries.len(),
            forall|k: int|
                0 <= k < j ==> (#[trigger] entries_of(entries@)[k]).0 != entries_of(
                    entries@,
                )[index as int].0,
        decreases index - j,
    {
        if entries[j].0 == entries[index].0 {
            assert(entries_of(entries@)[j as int].0 == entries_of(entries@)[index as int].0);
            return true;
        }
        j += 1;
    }
    false
}

/// Whether every value is well formed.
fn all_well_formed(items: &Vec<Value>) -> (ok: bool)
    ensures
        ok == forall|i: int| 0 <= i < items.len() ==> well_formed(#[trigger] terms_of(items@)[i]),
    decreases items,
{
    let mut i: usize = 0;
    while i < items.len()
        invariant
            i <= items.len(),
            forall|j: int| 0 <= j < i ==> well_formed(#[trigger] terms_of(items@)[j]),
        decreases items.len() - i,
    {
        if !items[i].is_well_formed() {
            assert(!well_formed(terms_of(items@)[i as int]));
            return false;
        }
        i += 1;
    }
    true
}

/// Whether no key occurs twice and every value is well formed.
fn entries_well_formed(entries: &Vec<(String, Value)>) -> (ok: bool)
    ensures
        ok == (distinct_keys(entries_of(entries@)) && forall|i: int|
            0 <= i < entries.len() ==> well_formed((#[trigger] entries_of(entries@)[i]).1)),
    decreases entries,
{
    let ghost terms = entries_of(entries@);
    let mut i: usize = 0;
    while i < entries.len()
        invariant
            i <= entries.len(),
            terms == entries_of(entries@),
            forall|j: int| 0 <= j < i ==> well_formed((#[trigger] terms[j]).1),
            forall|a: int, b: int| 0 <= a < b < i ==> (#[trigger] terms[a]).0 != (#[trigger] terms[b]).0,
        decreases entries.len() - i,
    {
        if key_occurs_before(entries, i) {
            let ghost j = choose|j: int| 0 <= j < i && (#[trigger] terms[j]).0 == terms[i as int].0;
            assert(terms[j].0 == terms[i as int].0);
            assert(!distinct_keys(terms));
            return false;
        }
        if !entries[i].1.is_well_formed() {
            assert(!well_formed(terms[i as int].1));
            return false;
        }
        i += 1;
    }
    true
}

impl Value {
    /// Whether no dictionary inside the value, at any depth, names a key
    /// twice.
    pub fn is_well_formed(&self) -> (ok: bool)
        ensures
            ok == well_formed(self@),
        decreases self,
    {
        proof {
            lemma_view(*self);
        }
        match self {
            Value::List(items) => {
                assert(self@->List_0 == terms_of(items@));
                all_well_formed(items)
            },
            Value::Dictionary(entries) => entries_well_formed(entries),
            Value::Structure { signature, fields } => {
                assert(self@->fields == terms_of(fields@));
                all_well_formed(fields)
            },
            _ => true,
        }
    }
}

/// One row of a query result.
#[derive(Debug, PartialEq, Eq)]
pub enum Data {
    Record(Vec<Value>),
}

impl Data {
    /// The fields of the row, in order.
    pub open spec fn fields(self) -> Seq<Term> {
        match self {
            Data::Record(values) => terms_of(values@),
        }
    }
}

impl Clone for Data {
    fn clone(&self) -> (out: Data)
        ensures
            out.fields() == self.fields(),
    {
        match self {
            Data::Record(values) => Data::Record(clone_values(values)),
        }
    }
}

/// Tests for the variant of a value.
pub trait ValueMatch {
    fn is_null(&self) -> bool;

    fn is_boolean(&self) -> bool;

    fn is_integer(&self) -> bool;

    fn is_float(&self) -> bool;

    fn is_string(&self) -> bool;

    fn is_list(&self) -> bool;

    fn is_map(&self) -> bool;

    fn is_structure(&self) -> bool;
}

impl ValueMatch for Value {
    fn is_null(&self) -> (b: bool)
        ensures
            b == (self@ is Null),
    {
        match self {
            Value::Null => true,
            _ => false,
        }
    }

    fn is_boolean(&self) -> (b: bool)
        ensures
            b == (self@ is Boolean),
    {
        match self {
            Value::Boolean(_) => true,
            _ => false,
        }
    }

    fn is_integer(&self) -> (b: bool)
        ensures
            b == (self@ is Integer),
    {
        match self {
            Value::Integer(_) => true,
            _ => false,
        }
    }

    fn is_float(&self) -> (b: bool)
        ensures
            b == (self@ is Float),
    {
        match self {
            Value::Float(_) => true,
            _ => false,
        }
    }

    fn is_string(&self) -> (b: bool)
        ensures
            b == (self@ is String),
    {
        match self {
            Value::String(_) => true,
            _ => false,
        }
    }

    fn is_list(&self) -> (b: bool)
        ensures
            b == (self@ is List),
    {
        match self {
            Value::List(_) => true,
            _ => false,
        }
    }

    fn is_map(&self) -> (b: bool)
        ensures
            b == (self@ is Dictionary),
    {
        match self {
            Value::Dictionary(_) => true,
            _ => false,
        }
    }

    fn is_structure(&self) -> (b: bool)
        ensures
            b == (self@ is Structure),
    {
        match self {
            Value::Structure { .. } => true,
            _ => false,
        }
    }
}

impl Value {
    /// The boolean inside, if this is one.
    pub fn into_bool(self) -> (out: Option<bool>)
        ensures
            out == (match self@ {
                Term::Boolean(b) => Some(b),
                _ => None,
            }),
    {
        match self {
            Value::Boolean(v) => Some(v),
            _ => None,
        }
    }

    /// The integer inside, if this is one.
    pub fn into_int(self) -> (out: Option<i64>)
        ensures
            out == (match self@ {
                Term::Integer(n) => Some(n),
                _ => None,
            }),
    {
        match self {
            Value::Integer(v) => Some(v),
            _ => None,
        }
    }

    /// The bit pattern of the float inside, if this is one.
    pub fn into_float(self) -> (out: Option<u64>)
        ensures
            out == (match self@ {
                Term::Float(bits) => Some(bits),
                _ => None,
            }),
    {
        match self {
            Value::Float(v) => Some(v),
            _ => None,
        }
    }

    /// The text inside, if this is a string.
    pub fn into_string(self) -> (out: Option<String>)
        ensures
            match self@ {
                Term::String(s) => out matches Some(text) && text@ == s,
                _ => out is None,
            },
    {
        match self {
            Value::String(v) => Some(v),
            _ => None,
        }
    }

    /// The items inside, if this is a list.
    pub fn into_vec(self) -> (out: Option<Vec<Value>>)
        ensures
            match self@ {
                Term::List(items) => out matches Some(v) && terms_of(v@) == items,
                _ => out is None,
            },
    {
        proof {
            lemma_view(self);
        }
        match self {
            Value::List(v) => Some(v),
            _ => None,
        }
    }

    /// The entries inside, if this is a dictionary.
    pub fn into_map(self) -> (out: Option<Vec<(String, Value)>>)
        ensures
            match self@ {
                Term::Dictionary(entries) => out matches Some(v) && entries_of(v@) == entries,
                _ => out is None,
            },
    {
        proof {
            lemma_view(self);
        }
        match self {
            Value::Dictionary(v) => Some(v),
            _ => None,
        }
    }
}

/// The index of the first entry under `key`, or the number of entries if
/// there is none.
pub open spec fn position_of(entries: Seq<(Seq<char>, Term)>, key: Seq<char>) -> int
    decreases entries.len(),
{
    if entries.len() == 0 {
        0
    } else if entries[0].0 == key {
        0
    } else {
        1 + position_of(entries.skip(1), key)
    }
}

/// The value that a dictionary holds under `key`.
pub open spec fn lookup(entries: Seq<(Seq<char>, Term)>, key: Seq<char>) -> Option<Term> {
    let i = position_of(entries, key);
    if i < entries.len() {
        Some(entries[i].1)
    } else {
        None
    }
}

/// The entries after `key` is bound to `value`: an entry that was there under
/// the key is overwritten in place, otherwise the new entry goes to the end.
pub open spec fn bind(entries: Seq<(Seq<char>, Term)>, key: Seq<char>, value: Term) -> Seq<
    (Seq<char>, Term),
> {
    let i = position_of(entries, key);
    if i < entries.len() {
        entries.update(i, (key, value))
    } else {
        entries.push((key, value))
    }
}

/// `position_of` finds the first entry under the key and nothing before it.
pub proof fn lemma_position_of(entries: Seq<(Seq<char>, Term)>, key: Seq<char>)
    ensures
        0 <= position_of(entries, key) <= entries.len(),
        position_of(entries, key) < entries.len() ==> entries[position_of(entries, key)].0 == key,
        forall|j: int| 0 <= j < position_of(entries, key) ==> (#[trigger] entries[j]).0 != key,
    decreases entries.len(),
{
    if entries.len() != 0 && entries[0].0 != key {
        let rest = entries.skip(1);
        lemma_position_of(rest, key);
        assert forall|j: int| 0 <= j < position_of(entries, key) implies (#[trigger] entries[j]).0
            != key by {
            if j > 0 {
                assert(rest[j - 1] == entries[j]);
            }
        }
    }
}

/// Binding a key keeps the keys distinct, and the key then leads to the value.
pub proof fn lemma_bind(entries: Seq<(Seq<char>, Term)>, key: Seq<char>, value: Term)
    requires
        distinct_keys(entries),
    ensures
        distinct_keys(bind(entries, key, value)),
        lookup(bind(entries, key, value), key) == Some(value),
{
    lemma_position_of(entries, key);
    let after = bind(entries, key, value);
    let i = position_of(entries, key);
    lemma_position_of(after, key);
    assert(after[i].0 == key);
    assert forall|a: int, b: int| 0 <= a < b < after.len() implies (#[trigger] after[a]).0 != (
    #[trigger] after[b]).0 by {
        if i < entries.len() {
            assert(entries[a].0 != entries[b].0);
        } else if b < entries.len() {
            assert(entries[a].0 != entries[b].0);
        } else {
            assert(entries[a].0 != key);
        }
    }
    let p = position_of(after, key);
    if p < i {
        assert(after[p].0 == key);
        assert(entries[p].0 != key);
    }
}

/// The index of the entry under `key`, if the dictionary has one.
pub fn find_key(entries: &Vec<(String, Value)>, key: &String) -> (out: Option<usize>)
    ensures
        match out {
            Some(i) => i == position_of(entries_of(entries@), key@) && i < entries.len(),
            None => position_of(entries_of(entries@), key@) == entries.len(),
        },
{
    let mut i: usize = 0;
    proof {
        lemma_position_of(entries_of(entries@), key@);
    }
    while i < entries.len()
        invariant
            i <= entries.len(),
            forall|j: int| 0 <= j < i ==> (#[trigger] entries_of(entries@)[j]).0 != key@,
            0 <= position_of(entries_of(entries@), key@) <= entries.len(),
            position_of(entries_of(entries@), key@) < entries.len() ==> entries_of(
                entries@,
            )[position_of(entries_of(entries@), key@)].0 == key@,
            forall|j: int|
                0 <= j < position_of(entries_of(entries@), key@) ==> (#[trigger] entries_of(
                    entries@,
                )[j]).0 != key@,
        decreases entries.len() - i,
    {
        if entries[i].0 == *key {
            assert(entries_of(entries@)[i as int].0 == key@);
            return Some(i);
        }
        assert(entries_of(entries@)[i as int].0 != key@);
        i += 1;
    }
    None
}

/// The value that the dictionary holds under `key`.
pub fn get<'a>(entries: &'a Vec<(String, Value)>, key: &str) -> (out: Option<&'a Value>)
    ensures
        match out {
            Some(v) => lookup(entries_of(entries@), key@) == Some(v@),
            None => lookup(entries_of(entries@), key@) is None,
        },
{
    let owned = key.to_owned();
    match find_key(entries, &owned) {
        Some(i) => Some(&entries[i].1),
        None => None,
    }
}

/// Binds `key` to `value` in the dictionary, overwriting what was there.
pub fn insert(entries: &mut Vec<(String, Value)>, key: String, value: Value)
    ensures
        entries_of(final(entries)@) == bind(entries_of(old(entries)@), key@, value@),
{
    match find_key(entries, &key) {
        Some(i) => {
            entries.set(i, (key, value));
            assert(entries_of(entries@) =~= bind(entries_of(old(entries)@), key@, value@));
        },
        None => {
            entries.push((key, value));
            assert(entries_of(entries@) =~= bind(entries_of(old(entries)@), key@, value@));
        },
    }
}

/// The signed number with the bit pattern of `n`.
pub open spec fn wrapped(n: u64) -> i64 {
    if n > 0x7FFF_FFFF_FFFF_FFFF {
        (n - 0x1_0000_0000_0000_0000) as i64
    } else {
        n as i64
    }
}

/// The signed number with the bit pattern of `n`.
fn wrap(n: u64) -> (out: i64)
    ensures
        out == wrapped(n),
{
    if n > 0x7FFF_FFFF_FFFF_FFFF {
        ((n - 0x8000_0000_0000_0000) as i64) + i64::MIN
    } else {
        n as i64
    }
}

/// Calls `to_string` of std on a character. Trusted: the string holds that
/// one character.
#[verifier::external_body]
fn string_of_char(c: char) -> (s: String)
    ensures
        s@ == seq![c],
{
    c.to_string()
}

/// Plain values as PackStream values.
pub trait ValueCast {
    /// What the value is as a PackStream value.
    spec fn cast(&self) -> Term;

    /// The value as a PackStream value.
    fn from(&self) -> (value: Value)
        ensures
            value@ == self.cast(),
    ;
}

impl ValueCast for bool {
    open spec fn cast(&self) -> Term {
        Term::Boolean(*self)
    }

    fn from(&self) -> (value: Value) {
        Value::Boolean(*self)
    }
}

impl ValueCast for char {
    open spec fn cast(&self) -> Term {
        Term::String(seq![*self])
    }

    fn from(&self) -> (value: Value) {
        Value::String(string_of_char(*self))
    }
}

impl ValueCast for i8 {
    open spec fn cast(&self) -> Term {
        Term::Integer(*self as i64)
    }

    fn from(&self) -> (value: Value) {
        Value::Integer(*self as i64)
    }
}

impl ValueCast for i16 {
    open spec fn cast(&self) -> Term {
        Term::Integer(*self as i64)
    }

    fn from(&self) -> (value: Value) {
        Value::Integer(*self as i64)
    }
}

impl ValueCast for i32 {
    open spec fn cast(&self) -> Term {
        Term::Integer(*self as i64)
    }

    fn from(&self) -> (value: Value) {
        Value::Integer(*self as i64)
    }
}

impl ValueCast for i64 {
    open spec fn cast(&self) -> Term {
        Term::Integer(*self)
    }

    fn from(&self) -> (value: Value) {
        Value::Integer(*self)
    }
}

impl ValueCast for isize {
    open spec fn cast(&self) -> Term {
        Term::Integer(*self as i64)
    }

    fn from(&self) -> (value: Value) {
        Value::Integer(*self as i64)
    }
}

impl ValueCast for u8 {
    open spec fn cast(&self) -> Term {
        Term::Integer(*self as i64)
    }

    fn from(&self) -> (value: Value) {
        Value::Integer(*self as i64)
    }
}

impl ValueCast for u16 {
    open spec fn cast(&self) -> Term {
        Term::Integer(*self as i64)
    }

    fn from(&self) -> (value: Value) {
        Value::Integer(*self as i64)
    }
}

impl ValueCast for u32 {
    open spec fn cast(&self) -> Term {
        Term::Integer(*self as i64)
    }

    fn from(&self) -> (value: Value) {
        Value::Integer(*self as i64)
    }
}

impl ValueCast for u64 {
    /// A number over the largest signed one wraps around, as a cast does.
    open spec fn cast(&self) -> Term {
        Term::Integer(wrapped(*self))
    }

    fn from(&self) -> (value: Value) {
        Value::Integer(wrap(*self))
    }
}

impl ValueCast for usize {
    /// A number over the largest signed one wraps around, as a cast does.
    open spec fn cast(&self) -> Term {
        Term::Integer(wrapped(*self as u64))
    }

    fn from(&self) -> (value: Value) {
        Value::Integer(wrap(*self as u64))
    }
}

impl<'t> ValueCast for &'t str {
    open spec fn cast(&self) -> Term {
        Term::String(self@)
    }

    fn from(&self) -> (value: Value) {
        Value::String(String::from_str(*self))
    }
}

impl ValueCast for String {
    open spec fn cast(&self) -> Term {
        Term::String(self@)
    }

    fn from(&self) -> (value: Value) {
        Value::String(self.clone())
    }
}

impl<T: ValueCast> ValueCast for Vec<T> {
    open spec fn cast(&self) -> Term {
        Term::List(Seq::new(self@.len(), |i: int| self@[i].cast()))
    }

    fn from(&self) -> (value: Value) {
        let mut items: Vec<Value> = Vec::new();
        let mut i: usize = 0;
        while i < self.len()
            invariant
                i <= self.len(),
                items.len() == i,
                forall|j: int| 0 <= j < i ==> items[j]@ == self@[j].cast(),
            decreases self.len() - i,
        {
            items.push(ValueCast::from(&self[i]));
            i += 1;
        }
        let list = Value::List(items);
        proof {
            lemma_view(list);
            assert(terms_of(items@) =~= Seq::new(self@.len(), |i: int| self@[i].cast()));
        }
        list
    }
}

impl From<bool> for Value {
    fn from(val: bool) -> (value: Value) {
        Value::Boolean(val)
    }
}

impl FromSpecImpl<bool> for Value {
    open spec fn obeys_from_spec() -> bool {
        true
    }

    open spec fn from_spec(val: bool) -> Value {
        Value::Boolean(val)
    }
}

impl From<i64> for Value {
    fn from(val: i64) -> (value: Value) {
        Value::Integer(val)
    }
}

impl FromSpecImpl<i64> for Value {
    open spec fn obeys_from_spec() -> bool {
        true
    }

    open spec fn from_spec(val: i64) -> Value {
        Value::Integer(val)
    }
}

impl From<String> for Value {
    fn from(val: String) -> (value: Value) {
        Value::String(val)
    }
}

impl FromSpecImpl<String> for Value {
    open spec fn obeys_from_spec() -> bool {
        true
    }

    open spec fn from_spec(val: String) -> Value {
        Value::String(val)
    }
}

} // verus!
