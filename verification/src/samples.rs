//! Small general-purpose items: a status value, a pair, a colour, a growable
//! container and a handful of functions on numbers, texts and slices.

use crate::decimal::{decimal_int, decimal_nat, number_outcome, parse_i32, push_decimal, push_decimal_i32, NumberFault};
use core::cmp::Ordering;
use vstd::prelude::*;
use vstd::std_specs::cmp::{PartialEqSpec, PartialOrdSpec};
use vstd::std_specs::ops::AddSpec;
use vstd::string::*;

verus! {

/// How an operation stands.
#[derive(Debug, PartialEq)]
pub enum Status {
    Success,
    Error(String),
    Warning { code: i32, message: String },
    Pending(i32),
}

impl Status {
    /// Whether this is the `Error` variant.
    pub fn is_error(&self) -> (r: bool)
        ensures
            r == (*self is Error),
    {
        match self {
            Status::Error(_) => true,
            _ => false,
        }
    }

    /// The text that the status carries, where it carries one.
    pub open spec fn message(&self) -> Option<Seq<char>> {
        match *self {
            Status::Error(msg) => Some(msg@),
            Status::Warning { code, message } => Some(message@),
            _ => None,
        }
    }

    /// The message of an `Error` or a `Warning`; nothing for the others.
    pub fn get_message(&self) -> (r: Option<&str>)
        ensures
            r is Some <==> self.message() is Some,
            r is Some ==> r.unwrap()@ == self.message().unwrap(),
    {
        match self {
            Status::Error(msg) => Some(msg.as_str()),
            Status::Warning { message, .. } => Some(message.as_str()),
            _ => None,
        }
    }
}

/// A growable sequence of items, read by index.
pub trait Container<T> {
    /// The items held, in the order in which they were added.
    spec fn items(&self) -> Seq<T>;

    /// Puts `item` behind the others.
    fn add(&mut self, item: T)
        ensures
            final(self).items() == old(self).items().push(item),
    ;

    /// The item at `index`, if there are that many.
    fn get(&self, index: usize) -> (r: Option<&T>)
        ensures
            index < self.items().len() ==> r == Some(&self.items()[index as int]),
            index >= self.items().len() ==> r is None,
    ;

    /// The number of items.
    fn len(&self) -> (n: usize)
        ensures
            n == self.items().len(),
    ;

    /// Whether no item is held.
    fn is_empty(&self) -> (b: bool)
        ensures
            b == (self.items().len() == 0),
    {
        self.len() == 0
    }
}

/// A pair of coordinates of one type.
#[derive(Debug)]
pub struct Vec2D<T> {
    x: T,
    y: T,
}

impl<T> Vec2D<T> where T: Copy + core::ops::Add<Output = T> {
    /// The two coordinates.
    pub closed spec fn coords(&self) -> (T, T) {
        (self.x, self.y)
    }

    pub fn new(x: T, y: T) -> (r: Self)
        ensures
            r.coords() == (x, y),
    {
        Vec2D { x, y }
    }

    /// The first coordinate.
    pub fn x(&self) -> (r: T)
        ensures
            r == self.coords().0,
    {
        self.x
    }

    /// The second coordinate.
    pub fn y(&self) -> (r: T)
        ensures
            r == self.coords().1,
    {
        self.y
    }

    /// The sum, coordinate by coordinate.
    pub fn add(&self, other: &Vec2D<T>) -> (r: Vec2D<T>)
        requires
            self.coords().0.add_req(other.coords().0),
            self.coords().1.add_req(other.coords().1),
        ensures
            T::obeys_add_spec() ==> r.coords() == (
                self.coords().0.add_spec(other.coords().0),
                self.coords().1.add_spec(other.coords().1),
            ),
    {
        Vec2D { x: self.x + other.x, y: self.y + other.y }
    }
}

/// A colour as its red, green and blue parts.
#[derive(Debug, PartialEq, Eq, Structural)]
pub struct Color(pub u8, pub u8, pub u8);

impl Color {
    /// Pure red.
    pub fn red() -> (r: Color)
        ensures
            r == Color(255, 0, 0),
    {
        Color(255, 0, 0)
    }

    /// Pure green.
    pub fn green() -> (r: Color)
        ensures
            r == Color(0, 255, 0),
    {
        Color(0, 255, 0)
    }

    /// Pure blue.
    pub fn blue() -> (r: Color)
        ensures
            r == Color(0, 0, 255),
    {
        Color(0, 0, 255)
    }

    /// The colour halfway between two, each part rounded down.
    pub fn mix(&self, other: &Color) -> (r: Color)
        requires
            self.0 + other.0 <= u8::MAX,
            self.1 + other.1 <= u8::MAX,
            self.2 + other.2 <= u8::MAX,
        ensures
            r.0 == (self.0 + other.0) / 2,
            r.1 == (self.1 + other.1) / 2,
            r.2 == (self.2 + other.2) / 2,
    {
        Color((self.0 + other.0) / 2, (self.1 + other.1) / 2, (self.2 + other.2) / 2)
    }
}

/// A value without content.
#[derive(Debug)]
pub struct Empty;

/// A `Container` over a `Vec`.
#[derive(Debug)]
pub struct SimpleVec<T> {
    items: Vec<T>,
}

impl<T> SimpleVec<T> {
    /// The items held, in the order in which they were added.
    pub closed spec fn seq(&self) -> Seq<T> {
        self.items@
    }

    pub fn new() -> (r: Self)
        ensures
            r.seq() == Seq::<T>::empty(),
            r.items() == Seq::<T>::empty(),
    {
        let r = SimpleVec { items: Vec::new() };
        proof {
            r.lemma_items_are_seq();
        }
        r
    }

    /// An empty container with room for `capacity` items.
    pub fn with_capacity(capacity: usize) -> (r: Self)
        ensures
            r.seq() == Seq::<T>::empty(),
            r.items() == Seq::<T>::empty(),
    {
        let r = SimpleVec { items: Vec::with_capacity(capacity) };
        proof {
            r.lemma_items_are_seq();
        }
        r
    }

    /// What the container holds as a `Container` is what `seq` gives.
    pub proof fn lemma_items_are_seq(&self)
        ensures
            self.items() == self.seq(),
    {
    }
}

impl<T> Container<T> for SimpleVec<T> {
    closed spec fn items(&self) -> Seq<T> {
        self.items@
    }

    fn add(&mut self, item: T) {
        self.items.push(item);
    }

    fn get(&self, index: usize) -> (r: Option<&T>) {
        if index < self.items.len() {
            Some(&self.items[index])
        } else {
            None
        }
    }

    fn len(&self) -> (n: usize) {
        self.items.len()
    }
}

/// The greater of two values; the second where neither is greater.
pub fn max<T: PartialOrd + Copy>(a: T, b: T) -> (r: T)
    ensures
        r == a || r == b,
        T::obeys_partial_cmp_spec() ==> r == (if a.partial_cmp_spec(&b) == Some(Ordering::Greater) {
            a
        } else {
            b
        }),
{
    if a > b {
        a
    } else {
        b
    }
}

/// The text with more bytes; the second where both have as many.
pub fn longest<'a>(s1: &'a str, s2: &'a str) -> (r: &'a str)
    ensures
        r@ == (if s1.spec_bytes().len() > s2.spec_bytes().len() {
            s1@
        } else {
            s2@
        }),
{
    if s1.as_bytes().len() > s2.as_bytes().len() {
        s1
    } else {
        s2
    }
}

/// Applies `operation` to `value`.
pub fn apply_operation<F>(value: i32, operation: F) -> (r: i32) where F: Fn(i32) -> i32
    requires
        operation.requires((value,)),
    ensures
        operation.ensures((value,), r),
{
    operation(value)
}

/// The product of the integers from 1 to `n`; 1 for `n == 0`.
pub open spec fn spec_factorial(n: nat) -> nat
    decreases n,
{
    if n <= 1 {
        1
    } else {
        n * spec_factorial((n - 1) as nat)
    }
}

/// The factorial of 20: the largest that 64 bits hold.
pub proof fn lemma_factorial_20()
    ensures
        spec_factorial(20) == 2432902008176640000,
        forall|n: nat| n <= 20 ==> #[trigger] spec_factorial(n) <= 2432902008176640000,
{
    assert(spec_factorial(1) == 1);
    assert(spec_factorial(2) == 2) by { assert(spec_factorial(2) == 2 * spec_factorial(1)); }
    assert(spec_factorial(3) == 6) by { assert(spec_factorial(3) == 3 * spec_factorial(2)); }
    assert(spec_factorial(4) == 24) by { assert(spec_factorial(4) == 4 * spec_factorial(3)); }
    assert(spec_factorial(5) == 120) by { assert(spec_factorial(5) == 5 * spec_factorial(4)); }
    assert(spec_factorial(6) == 720) by { assert(spec_factorial(6) == 6 * spec_factorial(5)); }
    assert(spec_factorial(7) == 5040) by { assert(spec_factorial(7) == 7 * spec_factorial(6)); }
    assert(spec_factorial(8) == 40320) by { assert(spec_factorial(8) == 8 * spec_factorial(7)); }
    assert(spec_factorial(9) == 362880) by { assert(spec_factorial(9) == 9 * spec_factorial(8)); }
    assert(spec_factorial(10) == 3628800) by { assert(spec_factorial(10) == 10 * spec_factorial(9)); }
    assert(spec_factorial(11) == 39916800) by { assert(spec_factorial(11) == 11 * spec_factorial(10)); }
    assert(spec_factorial(12) == 479001600) by { assert(spec_factorial(12) == 12 * spec_factorial(11)); }
    assert(spec_factorial(13) == 6227020800) by { assert(spec_factorial(13) == 13 * spec_factorial(12)); }
    assert(spec_factorial(14) == 87178291200) by { assert(spec_factorial(14) == 14 * spec_factorial(13)); }
    assert(spec_factorial(15) == 1307674368000) by { assert(spec_factorial(15) == 15 * spec_factorial(14)); }
    assert(spec_factorial(16) == 20922789888000) by { assert(spec_factorial(16) == 16 * spec_factorial(15)); }
    assert(spec_factorial(17) == 355687428096000) by { assert(spec_factorial(17) == 17 * spec_factorial(16)); }
    assert(spec_factorial(18) == 6402373705728000) by { assert(spec_factorial(18) == 18 * spec_factorial(17)); }
    assert(spec_factorial(19) == 121645100408832000) by { assert(spec_factorial(19) == 19 * spec_factorial(18)); }
    assert(spec_factorial(20) == 2432902008176640000) by { assert(spec_factorial(20) == 20 * spec_factorial(19)); }
    assert(spec_factorial(0) == 1);
    assert forall|n: nat| n <= 20 implies #[trigger] spec_factorial(n) <= 2432902008176640000 by {
        assert(n == 0 || n == 1 || n == 2 || n == 3 || n == 4 || n == 5 || n == 6 || n == 7 || n == 8
            || n == 9 || n == 10 || n == 11 || n == 12 || n == 13 || n == 14 || n == 15 || n == 16
            || n == 17 || n == 18 || n == 19 || n == 20);
    }
}

/// The factorial of `n`, for the `n` whose factorial 64 bits hold.
pub fn factorial(n: u64) -> (r: u64)
    requires
        n <= 20,
    ensures
        r == spec_factorial(n as nat),
    decreases n,
{
    if n <= 1 {
        1
    } else {
        let rest: u64 = factorial(n - 1);
        proof {
            lemma_factorial_20();
            assert(spec_factorial(n as nat) == n * spec_factorial((n - 1) as nat));
            assert(spec_factorial(n as nat) <= 2432902008176640000);
        }
        n * rest
    }
}

/// The first index at which `list` holds an item equal to `target`.
pub fn find_in_list<T: PartialEq>(list: &[T], target: &T) -> (r: Option<usize>)
    ensures
        r is Some ==> r.unwrap() < list@.len(),
        T::obeys_eq_spec() ==> match r {
            Some(i) => list@[i as int].eq_spec(target) && forall|j: int|
                0 <= j < i ==> !(#[trigger] list@[j]).eq_spec(target),
            None => forall|j: int| 0 <= j < list@.len() ==> !(#[trigger] list@[j]).eq_spec(target),
        },
{
    let n: usize = list.len();
    let mut index: usize = 0;
    while index < n
        invariant
            n == list@.len(),
            index <= n,
            T::obeys_eq_spec() ==> forall|j: int|
                0 <= j < index ==> !(#[trigger] list@[j]).eq_spec(target),
        decreases n - index,
    {
        if list[index] == *target {
            return Some(index);
        }
        index = index + 1;
    }
    None
}

/// The message for each way in which a text fails to be a number.
pub open spec fn parse_error_text(fault: NumberFault) -> Seq<char> {
    match fault {
        NumberFault::Empty => "Parse error: cannot parse integer from empty string"@,
        NumberFault::InvalidDigit => "Parse error: invalid digit found in string"@,
        NumberFault::TooLarge => "Parse error: number too large to fit in target type"@,
        NumberFault::TooSmall => "Parse error: number too small to fit in target type"@,
    }
}

/// Reads a 32-bit signed integer from its decimal text: an optional sign and
/// digits. A text that is none gives the message that says why.
pub fn parse_number(s: &str) -> (r: Result<i32, String>)
    ensures
        match number_outcome(s.spec_bytes()) {
            Ok(v) => r == Ok::<i32, String>(v),
            Err(fault) => r is Err && r.unwrap_err()@ == parse_error_text(fault),
        },
{
    match parse_i32(s.as_bytes()) {
        Ok(v) => Ok(v),
        Err(NumberFault::Empty) => Err(
            String::from_str("Parse error: cannot parse integer from empty string"),
        ),
        Err(NumberFault::InvalidDigit) => Err(
            String::from_str("Parse error: invalid digit found in string"),
        ),
        Err(NumberFault::TooLarge) => Err(
            String::from_str("Parse error: number too large to fit in target type"),
        ),
        Err(NumberFault::TooSmall) => Err(
            String::from_str("Parse error: number too small to fit in target type"),
        ),
    }
}

/// The sentence that describes a status.
pub open spec fn status_report(status: Status) -> Seq<char> {
    match status {
        Status::Success => "Operation completed successfully"@,
        Status::Error(msg) => "Error occurred: "@ + msg@,
        Status::Warning { code, message } => "Warning (code "@ + decimal_int(code as int) + "): "@
            + message@,
        Status::Pending(priority) => "Operation pending with priority: "@ + decimal_int(
            priority as int,
        ),
    }
}

/// Describes a status in one sentence.
pub fn analyze_status(status: &Status) -> (r: String)
    ensures
        r@ == status_report(*status),
{
    match status {
        Status::Success => String::from_str("Operation completed successfully"),
        Status::Error(msg) => {
            let mut out = String::from_str("Error occurred: ");
            out.append(msg.as_str());
            out
        },
        Status::Warning { code, message } => {
            let mut out = String::from_str("Warning (code ");
            push_decimal_i32(&mut out, *code);
            out.append("): ");
            out.append(message.as_str());
            out
        },
        Status::Pending(priority) => {
            let mut out = String::from_str("Operation pending with priority: ");
            push_decimal_i32(&mut out, *priority);
            out
        },
    }
}

/// The label of the record with the number `id`.
pub fn data_label(id: u32) -> (r: String)
    ensures
        r@ == "Data for ID: "@ + decimal_nat(id as nat),
{
    let mut out = String::from_str("Data for ID: ");
    push_decimal(&mut out, id as u64);
    out
}

/// The upper-case form of a text, as `str::to_uppercase` gives it.
pub uninterp spec fn uppercase_of(s: Seq<char>) -> Seq<char>;

/// Calls `str::to_uppercase`, which maps each character to its upper-case
/// form by the Unicode tables that std carries. The result depends on the
/// text alone; the contract names it and says nothing more of it.
#[verifier::external_body]
fn to_upper(s: &str) -> (r: String)
    ensures
        r@ == uppercase_of(s@),
{
    s.to_uppercase()
}

/// The upper-case form of each text, in order, and how many there are.
pub fn process_strings(strings: Vec<String>) -> (r: (Vec<String>, usize))
    ensures
        r.1 == strings@.len(),
        r.0@.len() == strings@.len(),
        forall|i: int| 0 <= i < strings@.len() ==> (#[trigger] r.0@[i])@ == uppercase_of(strings@[i]@),
{
    let count: usize = strings.len();
    let mut uppercase: Vec<String> = Vec::new();
    let mut i: usize = 0;
    while i < count
        invariant
            count == strings@.len(),
            i <= count,
            uppercase@.len() == i,
            forall|j: int| 0 <= j < i ==> (#[trigger] uppercase@[j])@ == uppercase_of(strings@[j]@),
        decreases count - i,
    {
        uppercase.push(to_upper(strings[i].as_str()));
        i = i + 1;
    }
    (uppercase, count)
}

/// Adds one to each number.
pub fn increment_all(numbers: &mut [i32])
    requires
        forall|i: int| 0 <= i < old(numbers)@.len() ==> old(numbers)@[i] < i32::MAX,
    ensures
        final(numbers)@.len() == old(numbers)@.len(),
        forall|i: int| 0 <= i < old(numbers)@.len() ==> final(numbers)@[i] == old(numbers)@[i] + 1,
{
    let n: usize = numbers.len();
    let mut i: usize = 0;
    while i < n
        invariant
            n == old(numbers)@.len(),
            numbers@.len() == n,
            i <= n,
            forall|j: int| 0 <= j < n ==> old(numbers)@[j] < i32::MAX,
            forall|j: int| 0 <= j < i ==> numbers@[j] == old(numbers)@[j] + 1,
            forall|j: int| i <= j < n ==> numbers@[j] == old(numbers)@[j],
        decreases n - i,
    {
        let v: i32 = numbers[i];
        numbers[i] = v + 1;
        i = i + 1;
    }
}

} // verus!
