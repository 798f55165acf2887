//! Text primitives: the order on strings, decimal rendering of counts, and
//! building strings one character at a time.
use vstd::prelude::*;
use vstd::string::*;

verus! {

broadcast use vstd::string::group_string_axioms;

/// The result of a three-way comparison.
#[derive(PartialEq, Eq, Structural, Clone, Copy, Debug)]
pub enum Order {
    Less,
    Equal,
    Greater,
}

/// The opposite result: what comparing the two values the other way round gives.
pub open spec fn flip(o: Order) -> Order {
    match o {
        Order::Less => Order::Greater,
        Order::Equal => Order::Equal,
        Order::Greater => Order::Less,
    }
}

/// Three-way comparison of two unsigned integers.
pub open spec fn int_order(a: int, b: int) -> Order {
    if a < b {
        Order::Less
    } else if a == b {
        Order::Equal
    } else {
        Order::Greater
    }
}

/// Lexicographic comparison of `a` and `b` from position `i` on, character by
/// character by code point; a proper prefix comes first.
pub open spec fn text_order_from(a: Seq<char>, b: Seq<char>, i: int) -> Order
    decreases a.len() - i,
{
    if i >= a.len() {
        if i >= b.len() {
            Order::Equal
        } else {
            Order::Less
        }
    } else if i >= b.len() {
        Order::Greater
    } else if (a[i] as int) < (b[i] as int) {
        Order::Less
    } else if (a[i] as int) > (b[i] as int) {
        Order::Greater
    } else {
        text_order_from(a, b, i + 1)
    }
}

/// The order of strings: lexicographic by code point. UTF-8 keeps the order
/// of code points, so this is also the byte order by which `str` compares.
pub open spec fn text_order(a: Seq<char>, b: Seq<char>) -> Order {
    text_order_from(a, b, 0)
}

/// Comparing `b` with `a` gives the opposite of comparing `a` with `b`.
pub proof fn lemma_text_order_from_flip(a: Seq<char>, b: Seq<char>, i: int)
    requires
        0 <= i,
    ensures
        text_order_from(b, a, i) == flip(text_order_from(a, b, i)),
    decreases a.len() - i,
{
    if i < a.len() && i < b.len() && a[i] as int == b[i] as int {
        lemma_text_order_from_flip(a, b, i + 1);
    }
}

/// Comparing `b` with `a` gives the opposite of comparing `a` with `b`.
pub proof fn lemma_text_order_flip(a: Seq<char>, b: Seq<char>)
    ensures
        text_order(b, a) == flip(text_order(a, b)),
{
    lemma_text_order_from_flip(a, b, 0);
}

/// From position `i` on, two texts compare equal exactly when they agree there.
pub proof fn lemma_text_order_from_equal(a: Seq<char>, b: Seq<char>, i: int)
    requires
        0 <= i <= a.len(),
        i <= b.len(),
    ensures
        (text_order_from(a, b, i) == Order::Equal) <==> (a.skip(i) =~= b.skip(i)),
    decreases a.len() - i,
{
    if i < a.len() && i < b.len() {
        lemma_text_order_from_equal(a, b, i + 1);
        if a[i] as int == b[i] as int {
            assert(a[i] == b[i]);
            if a.skip(i + 1) =~= b.skip(i + 1) {
                assert(a.skip(i) =~= b.skip(i)) by {
                    assert forall|k: int| 0 <= k < a.skip(i).len() implies a.skip(i)[k] == b.skip(
                        i,
                    )[k] by {
                        if k > 0 {
                            assert(a.skip(i)[k] == a.skip(i + 1)[k - 1]);
                            assert(b.skip(i)[k] == b.skip(i + 1)[k - 1]);
                        }
                    }
                }
            }
            if a.skip(i) =~= b.skip(i) {
                assert(a.skip(i + 1) =~= a.skip(i).skip(1));
                assert(b.skip(i + 1) =~= b.skip(i).skip(1));
            }
        } else {
            assert(a.skip(i)[0] == a[i]);
            assert(b.skip(i)[0] == b[i]);
        }
    } else if i < a.len() {
        assert(a.skip(i).len() != b.skip(i).len());
    } else if i < b.len() {
        assert(a.skip(i).len() != b.skip(i).len());
    }
}

/// Two texts compare equal exactly when they are the same text.
pub proof fn lemma_text_order_equal(a: Seq<char>, b: Seq<char>)
    ensures
        (text_order(a, b) == Order::Equal) <==> (a == b),
{
    lemma_text_order_from_equal(a, b, 0);
    assert(a.skip(0) =~= a);
    assert(b.skip(0) =~= b);
}

/// "Not after" is transitive for the text order, from position `i` on.
pub proof fn lemma_text_order_from_transitive(a: Seq<char>, b: Seq<char>, c: Seq<char>, i: int)
    requires
        0 <= i,
        text_order_from(a, b, i) != Order::Greater,
        text_order_from(b, c, i) != Order::Greater,
    ensures
        text_order_from(a, c, i) != Order::Greater,
        text_order_from(a, b, i) == Order::Less ==> text_order_from(a, c, i) == Order::Less,
        text_order_from(b, c, i) == Order::Less ==> text_order_from(a, c, i) == Order::Less,
    decreases a.len() - i,
{
    if i < a.len() && i < b.len() && i < c.len() && a[i] as int == b[i] as int && b[i] as int
        == c[i] as int {
        lemma_text_order_from_transitive(a, b, c, i + 1);
    }
}

/// "Not after" is transitive for the text order.
pub proof fn lemma_text_order_transitive(a: Seq<char>, b: Seq<char>, c: Seq<char>)
    requires
        text_order(a, b) != Order::Greater,
        text_order(b, c) != Order::Greater,
    ensures
        text_order(a, c) != Order::Greater,
        text_order(a, b) == Order::Less ==> text_order(a, c) == Order::Less,
        text_order(b, c) == Order::Less ==> text_order(a, c) == Order::Less,
{
    lemma_text_order_from_transitive(a, b, c, 0);
}

/// The characters of a string slice, collected into a vector.
pub fn chars_of(s: &str) -> (v: Vec<char>)
    ensures
        v@ == s@,
{
    let mut v: Vec<char> = Vec::new();
    for c in it: s.chars()
        invariant
            it.seq() == s@,
            v@ == it.seq().take(it.index()),
    {
        v.push(c);
    }
    v
}

/// Compares two character sequences by the text order.
pub fn compare_chars(a: &Vec<char>, b: &Vec<char>) -> (o: Order)
    ensures
        o == text_order(a@, b@),
{
    let mut i: usize = 0;
    while i < a.len() && i < b.len()
        invariant
            i <= a.len(),
            i <= b.len(),
            text_order(a@, b@) == text_order_from(a@, b@, i as int),
        decreases a.len() - i,
    {
        let x = a[i];
        let y = b[i];
        if x < y {
            return Order::Less;
        } else if x > y {
            return Order::Greater;
        }
        i = i + 1;
    }
    if i < b.len() {
        Order::Less
    } else if i < a.len() {
        Order::Greater
    } else {
        Order::Equal
    }
}

/// Compares two strings by the text order.
pub fn compare_text(a: &str, b: &str) -> (o: Order)
    ensures
        o == text_order(a@, b@),
{
    let x = chars_of(a);
    let y = chars_of(b);
    compare_chars(&x, &y)
}

/// `String::push`: appends one character.
#[verifier::external_body]
pub fn push_char(s: &mut String, c: char)
    ensures
        final(s)@ == old(s)@.push(c),
{
    s.push(c);
}

/// Appends a string slice.
pub fn push_text(s: &mut String, t: &str)
    ensures
        final(s)@ == old(s)@ + t@,
{
    s.append(t);
}

/// Appends the characters `chars[from..to]`.
pub fn push_chars(s: &mut String, chars: &Vec<char>, from: usize, to: usize)
    requires
        from <= to <= chars.len(),
    ensures
        final(s)@ == old(s)@ + chars@.subrange(from as int, to as int),
{
    let mut k = from;
    while k < to
        invariant
            from <= k <= to <= chars.len(),
            s@ == old(s)@ + chars@.subrange(from as int, k as int),
        decreases to - k,
    {
        push_char(s, chars[k]);
        proof {
            assert(chars@.subrange(from as int, k + 1) =~= chars@.subrange(from as int, k as int).push(chars@[k as int]));
        }
        k = k + 1;
    }
}

/// A new string holding the given text.
pub fn text(t: &str) -> (s: String)
    ensures
        s@ == t@,
{
    String::from_str(t)
}

/// The decimal digit character for `d < 10`.
pub open spec fn digit_char(d: int) -> char {
    ((48 + d) as u8) as char
}

/// The decimal representation of `n`, most significant digit first, without
/// leading zeros ("0" for zero): what `Display` prints for an unsigned integer.
pub open spec fn decimal(n: nat) -> Seq<char>
    decreases n,
{
    if n < 10 {
        seq![digit_char(n as int)]
    } else {
        decimal(n / 10).push(digit_char((n % 10) as int))
    }
}

/// Appends the decimal representation of `n`.
pub fn push_decimal(s: &mut String, n: usize)
    ensures
        final(s)@ == old(s)@ + decimal(n as nat),
    decreases n,
{
    if n >= 10 {
        push_decimal(s, n / 10);
    }
    let d: u8 = (n % 10) as u8;
    let c: char = (48u8 + d) as char;
    push_char(s, c);
    proof {
        if n >= 10 {
            assert(old(s)@ + decimal((n / 10) as nat) + seq![c] =~= old(s)@ + decimal(n as nat));
        } else {
            assert(old(s)@ + seq![c] =~= old(s)@ + decimal(n as nat));
        }
    }
}

/// The decimal representation of `n` as a new string.
pub fn decimal_string(n: usize) -> (s: String)
    ensures
        s@ == decimal(n as nat),
{
    let mut s = String::new();
    push_decimal(&mut s, n);
    proof {
        assert(Seq::<char>::empty() + decimal(n as nat) =~= decimal(n as nat));
    }
    s
}

} // verus!
