//! Text pieces for messages.
use vstd::prelude::*;
use vstd::std_specs::iter::IteratorSpec;
use vstd::string::StringExecFns;

verus! {

/// The text of a digit.
pub open spec fn digit_text(d: int) -> Seq<char> {
    if d == 0 {
        "0"@
    } else if d == 1 {
        "1"@
    } else if d == 2 {
        "2"@
    } else if d == 3 {
        "3"@
    } else if d == 4 {
        "4"@
    } else if d == 5 {
        "5"@
    } else if d == 6 {
        "6"@
    } else if d == 7 {
        "7"@
    } else if d == 8 {
        "8"@
    } else {
        "9"@
    }
}

/// The decimal text of a number that is not negative.
pub open spec fn digits_text(n: nat) -> Seq<char>
    decreases n,
{
    if n < 10 {
        digit_text(n as int)
    } else {
        digits_text(n / 10) + digit_text((n % 10) as int)
    }
}

/// The decimal text of an integer.
pub open spec fn decimal_text(value: int) -> Seq<char> {
    if value < 0 {
        "-"@ + digits_text((-value) as nat)
    } else {
        digits_text(value as nat)
    }
}

fn digit(d: u64) -> (r: &'static str)
    requires
        d < 10,
    ensures
        r@ == digit_text(d as int),
{
    match d {
        0 => "0",
        1 => "1",
        2 => "2",
        3 => "3",
        4 => "4",
        5 => "5",
        6 => "6",
        7 => "7",
        8 => "8",
        _ => "9",
    }
}

/// The decimal text of a number.
pub(crate) fn digits(n: u64) -> (r: String)
    ensures
        r@ == digits_text(n as nat),
    decreases n,
{
    if n < 10 {
        String::from_str(digit(n))
    } else {
        let mut r: String = digits(n / 10);
        r.append(digit(n % 10));
        r
    }
}

/// The decimal text of a small integer.
pub(crate) fn decimal(value: i8) -> (r: String)
    ensures
        r@ == decimal_text(value as int),
{
    if value < 0 {
        let mut r: String = String::from_str("-");
        r.append(digits((-(value as i64)) as u64).as_str());
        r
    } else {
        digits(value as u64)
    }
}

/// The texts, with `sep` between each two of them.
pub open spec fn joined(texts: Seq<Seq<char>>, sep: Seq<char>) -> Seq<char>
    decreases texts.len(),
{
    if texts.len() == 0 {
        Seq::empty()
    } else if texts.len() == 1 {
        texts[0]
    } else {
        joined(texts.drop_last(), sep) + sep + texts.last()
    }
}

/// The values of a list of strings.
pub open spec fn views(texts: Seq<String>) -> Seq<Seq<char>> {
    texts.map_values(|t: String| t@)
}

/// Joins texts with `sep` between each two of them.
pub(crate) fn join(texts: &Vec<String>, sep: &str) -> (r: String)
    ensures
        r@ == joined(views(texts@), sep@),
{
    let mut r: String = String::new();
    let ghost all = views(texts@);
    let mut i: usize = 0;
    assert(all.take(0) =~= Seq::empty());
    while i < texts.len()
        invariant
            i <= texts@.len(),
            all == views(texts@),
            r@ == joined(all.take(i as int), sep@),
        decreases texts@.len() - i,
    {
        proof {
            assert(all.take(i + 1).drop_last() =~= all.take(i as int));
            assert(all.take(i + 1).last() == texts@[i as int]@);
        }
        if i > 0 {
            r.append(sep);
        }
        r.append(texts[i].as_str());
        assert(r@ =~= joined(all.take(i + 1), sep@));
        i = i + 1;
    }
    assert(all.take(i as int) =~= all);
    r
}

/// The characters of a text.
pub(crate) fn chars_of(s: &str) -> (r: Vec<char>)
    ensures
        r@ == s@,
{
    let mut r: Vec<char> = Vec::new();
    let chars = s.chars();
    let ghost all = IteratorSpec::remaining(&chars);
    for c in it: chars
        invariant
            it.seq() == all,
            r@ == all.take(it.index() as int),
    {
        r.push(c);
        assert(r@ =~= all.take(it.index() as int + 1));
    }
    assert(all.take(all.len() as int) =~= all);
    r
}

/// Whether one text begins with another.
pub open spec fn begins_with(text: Seq<char>, start: Seq<char>) -> bool {
    start.len() <= text.len() && text.take(start.len() as int) == start
}

/// Whether one text begins with another.
pub(crate) fn has_prefix(text: &str, start: &str) -> (r: bool)
    ensures
        r == begins_with(text@, start@),
{
    let a: Vec<char> = chars_of(text);
    let b: Vec<char> = chars_of(start);
    if b.len() > a.len() {
        return false;
    }
    let mut i: usize = 0;
    while i < b.len()
        invariant
            i <= b@.len() <= a@.len(),
            a@ == text@,
            b@ == start@,
            forall|j: int| 0 <= j < i ==> a@[j] == b@[j],
        decreases b@.len() - i,
    {
        if a[i] != b[i] {
            proof {
                if begins_with(text@, start@) {
                    assert(text@.take(start@.len() as int)[i as int] == start@[i as int]);
                }
            }
            return false;
        }
        i = i + 1;
    }
    assert(text@.take(start@.len() as int) =~= start@);
    true
}

/// Whether two texts are the same.
pub(crate) fn same_text(a: &str, b: &str) -> (r: bool)
    ensures
        r == (a@ == b@),
{
    let x: Vec<char> = chars_of(a);
    let y: Vec<char> = chars_of(b);
    if x.len() != y.len() {
        return false;
    }
    let mut i: usize = 0;
    while i < x.len()
        invariant
            i <= x@.len() == y@.len(),
            x@ == a@,
            y@ == b@,
            forall|j: int| 0 <= j < i ==> x@[j] == y@[j],
        decreases x@.len() - i,
    {
        if x[i] != y[i] {
            return false;
        }
        i = i + 1;
    }
    assert(a@ =~= b@);
    true
}

/// Dictionary order of texts, by the code points of their characters.
pub open spec fn text_le(a: Seq<char>, b: Seq<char>) -> bool
    decreases a.len(),
{
    if a.len() == 0 {
        true
    } else if b.len() == 0 {
        false
    } else if a[0] != b[0] {
        (a[0] as u32) < (b[0] as u32)
    } else {
        text_le(a.drop_first(), b.drop_first())
    }
}

/// Whether one text comes no later than another in dictionary order.
pub(crate) fn comes_no_later(a: &str, b: &str) -> (r: bool)
    ensures
        r == text_le(a@, b@),
{
    let x: Vec<char> = chars_of(a);
    let y: Vec<char> = chars_of(b);
    let mut i: usize = 0;
    assert(a@.skip(0) =~= a@);
    assert(b@.skip(0) =~= b@);
    while i < x.len() && i < y.len()
        invariant
            i <= x@.len(),
            i <= y@.len(),
            x@ == a@,
            y@ == b@,
            text_le(a@, b@) == text_le(a@.skip(i as int), b@.skip(i as int)),
        decreases x@.len() - i,
    {
        proof {
            assert(a@.skip(i as int).drop_first() =~= a@.skip(i + 1));
            assert(b@.skip(i as int).drop_first() =~= b@.skip(i + 1));
            assert(a@.skip(i as int)[0] == a@[i as int]);
            assert(b@.skip(i as int)[0] == b@[i as int]);
        }
        if x[i] != y[i] {
            return (x[i] as u32) < (y[i] as u32);
        }
        i = i + 1;
    }
    i == x.len()
}

proof fn lemma_chars_differ(a: char, b: char)
    requires
        a != b,
    ensures
        a as u32 != b as u32,
{
}

/// Dictionary order is total, and two texts that come no later than each other are the
/// same.
pub proof fn lemma_text_order(a: Seq<char>, b: Seq<char>)
    ensures
        text_le(a, b) || text_le(b, a),
        text_le(a, b) && text_le(b, a) ==> a == b,
    decreases a.len(),
{
    if a.len() > 0 && b.len() > 0 {
        if a[0] == b[0] {
            lemma_text_order(a.drop_first(), b.drop_first());
            if text_le(a, b) && text_le(b, a) {
                assert(a =~= seq![a[0]] + a.drop_first());
                assert(b =~= seq![b[0]] + b.drop_first());
            }
        } else {
            lemma_chars_differ(a[0], b[0]);
        }
    } else if a.len() == 0 && b.len() == 0 {
        assert(a =~= b);
    }
}

/// Dictionary order is transitive.
pub proof fn lemma_text_order_transitive(a: Seq<char>, b: Seq<char>, c: Seq<char>)
    requires
        text_le(a, b),
        text_le(b, c),
    ensures
        text_le(a, c),
    decreases a.len(),
{
    if a.len() > 0 && b.len() > 0 && c.len() > 0 && a[0] == b[0] && b[0] == c[0] {
        lemma_text_order_transitive(a.drop_first(), b.drop_first(), c.drop_first());
    }
}

/// Dictionary order: where two texts agree up to a place, the characters there decide, and a
/// text comes before those that go on after it.
pub proof fn law_dictionary_order(a: Seq<char>, b: Seq<char>, k: int)
    requires
        0 <= k <= a.len(),
        k <= b.len(),
        forall|i: int| 0 <= i < k ==> (#[trigger] a[i]) == b[i],
    ensures
        k < a.len() && k < b.len() && (a[k] as u32) < (b[k] as u32) ==> text_le(a, b) && !text_le(
            b,
            a,
        ),
        k == a.len() ==> text_le(a, b),
        k == a.len() && k < b.len() ==> !text_le(b, a),
    decreases k,
{
    if k > 0 {
        assert(a[0] == b[0]);
        let (x, y) = (a.drop_first(), b.drop_first());
        assert forall|i: int| 0 <= i < k - 1 implies (#[trigger] x[i]) == y[i] by {
            assert(a[i + 1] == b[i + 1]);
        }
        law_dictionary_order(x, y, k - 1);
    }
}

} // verus!
