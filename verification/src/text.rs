//! String comparison, search and formatting over the characters of a `str`.
//!
//! Every contract speaks of the sequence of characters `s@`; comparing
//! characters and comparing UTF-8 bytes give the same answers.

use vstd::prelude::*;

verus! {

/// The characters of an optional string slice.
pub open spec fn opt_str(s: Option<&str>) -> Option<Seq<char>> {
    match s {
        Some(t) => Some(t@),
        None => None,
    }
}

/// The characters of an optional owned string.
pub open spec fn opt_string(s: Option<String>) -> Option<Seq<char>> {
    match s {
        Some(t) => Some(t@),
        None => None,
    }
}

/// `needle` stands somewhere in `hay` as consecutive characters.
pub open spec fn occurs_in(needle: Seq<char>, hay: Seq<char>) -> bool {
    exists|i: int| #[trigger] occurs_at(needle, hay, i)
}

/// `needle` stands in `hay` starting at position `i`.
pub open spec fn occurs_at(needle: Seq<char>, hay: Seq<char>, i: int) -> bool {
    0 <= i && i + needle.len() <= hay.len() && hay.subrange(i, i + needle.len()) == needle
}

/// The decimal digits of `n`, most significant first, without leading zeros.
pub open spec fn decimal(n: nat) -> Seq<char>
    decreases n,
{
    if n < 10 {
        seq![digit(n)]
    } else {
        decimal(n / 10).push(digit(n % 10))
    }
}

/// The character of a decimal digit.
pub open spec fn digit(d: nat) -> char {
    (48 + d) as char
}

/// Borrow the string inside an `Option<String>`.
pub fn as_deref(s: &Option<String>) -> (r: Option<&str>)
    ensures
        opt_str(r) == opt_string(*s),
{
    match s {
        Some(t) => Some(t.as_str()),
        None => None,
    }
}

/// Own the string slice inside an `Option`.
pub fn to_owned_opt(s: Option<&str>) -> (r: Option<String>)
    ensures
        opt_string(r) == opt_str(s),
{
    match s {
        Some(t) => Some(t.to_owned()),
        None => None,
    }
}

/// Whether `s` begins with `prefix`.
pub fn starts_with(s: &str, prefix: &str) -> (r: bool)
    ensures
        r == prefix@.is_prefix_of(s@),
{
    let mut left = s.chars();
    let mut right = prefix.chars();
    let ghost mut i: int = 0;
    loop
        invariant
            0 <= i <= prefix@.len(),
            i <= s@.len(),
            vstd::std_specs::iter::IteratorSpec::remaining(&left) == s@.skip(i),
            vstd::std_specs::iter::IteratorSpec::remaining(&right) == prefix@.skip(i),
            s@.take(i) == prefix@.take(i),
        decreases prefix@.len() - i,
    {
        match right.next() {
            None => {
                assert(prefix@.take(i) =~= prefix@);
                return true;
            },
            Some(c) => {
                match left.next() {
                    Some(d) if d == c => {
                        proof {
                            assert(s@.take(i + 1) =~= s@.take(i).push(d));
                            assert(prefix@.take(i + 1) =~= prefix@.take(i).push(c));
                            i = i + 1;
                        }
                    },
                    _ => {
                        assert(prefix@[i] == prefix@.skip(i)[0]);
                        assert(i < s@.len() ==> s@[i] == s@.skip(i)[0]);
                        return false;
                    },
                }
            },
        }
    }
}

/// Whether two strings hold the same characters.
pub fn same(a: &str, b: &str) -> (r: bool)
    ensures
        r == (a@ == b@),
{
    let result = starts_with(a, b) && starts_with(b, a);
    proof {
        if result {
            assert(a@ =~= b@);
        } else if a@ == b@ {
            assert(a@.subrange(0, a@.len() as int) =~= a@);
        }
    }
    result
}

/// Whether two optional strings are both absent, or hold the same characters.
pub fn same_opt(a: Option<&str>, b: Option<&str>) -> (r: bool)
    ensures
        r == (opt_str(a) == opt_str(b)),
{
    match (a, b) {
        (None, None) => true,
        (Some(x), Some(y)) => same(x, y),
        _ => false,
    }
}

/// The characters of a string, in order.
pub fn chars_of(s: &str) -> (r: Vec<char>)
    ensures
        r@ == s@,
{
    let mut out: Vec<char> = Vec::new();
    let mut rest = s.chars();
    loop
        invariant
            out@.len() <= s@.len(),
            out@ == s@.take(out@.len() as int),
            vstd::std_specs::iter::IteratorSpec::remaining(&rest) == s@.skip(out@.len() as int),
        decreases s@.len() - out@.len(),
    {
        match rest.next() {
            None => {
                assert(s@.take(out@.len() as int) =~= s@);
                return out;
            },
            Some(c) => {
                let ghost before = out@;
                out.push(c);
                proof {
                    assert(s@.take(before.len() as int + 1) =~= before.push(c));
                }
            },
        }
    }
}

/// Whether `needle` occurs in `hay`.
pub fn contains(hay: &str, needle: &str) -> (r: bool)
    ensures
        r == occurs_in(needle@, hay@),
{
    let h = chars_of(hay);
    let n = chars_of(needle);
    if n.len() > h.len() {
        return false;
    }
    let last: usize = h.len() - n.len();
    let mut i: usize = 0;
    loop
        invariant
            h@ == hay@,
            n@ == needle@,
            n.len() <= h.len(),
            last == h.len() - n.len(),
            i <= last,
            forall|j: int| 0 <= j < i ==> !#[trigger] occurs_at(needle@, hay@, j),
        decreases last - i,
    {
        let mut k: usize = 0;
        while k < n.len() && h[i + k] == n[k]
            invariant
                k <= n.len(),
                i + n.len() <= h.len(),
                forall|m: int| 0 <= m < k ==> h@[i + m] == n@[m],
            decreases n.len() - k,
        {
            k += 1;
        }
        if k == n.len() {
            proof {
                assert(hay@.subrange(i as int, i + needle@.len()) =~= needle@);
                assert(occurs_at(needle@, hay@, i as int));
            }
            return true;
        }
        proof {
            assert(!occurs_at(needle@, hay@, i as int)) by {
                if occurs_at(needle@, hay@, i as int) {
                    assert(hay@.subrange(i as int, i + needle@.len())[k as int] == needle@[k as int]);
                }
            }
        }
        if i == last {
            return false;
        }
        i += 1;
    }
}

/// Write a number in decimal.
pub fn decimal_text(n: usize) -> (r: String)
    ensures
        r@ == decimal(n as nat),
    decreases n,
{
    if n < 10 {
        digit_text(n)
    } else {
        let head = decimal_text(n / 10);
        let tail = digit_text(n % 10);
        let text = head.concat(tail.as_str());
        assert(text@ =~= decimal(n as nat));
        text
    }
}

/// Write one decimal digit.
fn digit_text(d: usize) -> (r: String)
    requires
        d < 10,
    ensures
        r@ == seq![digit(d as nat)],
{
    let text: &str = match d {
        0 => "0",
        1 => "1",
        2 => "2",
        3 => "3",
        4 => "4",
        5 => "5",
        6 => "6",
        7 => "7",
        8 => "8",
        _ => "9",
    };
    proof {
        reveal_strlit("0");
        reveal_strlit("1");
        reveal_strlit("2");
        reveal_strlit("3");
        reveal_strlit("4");
        reveal_strlit("5");
        reveal_strlit("6");
        reveal_strlit("7");
        reveal_strlit("8");
        reveal_strlit("9");
        assert(text@ =~= seq![digit(d as nat)]);
    }
    text.to_owned()
}

/// An optional text is known by its characters: every text that is there has
/// them, the empty one too, and one that is absent has none.
pub proof fn optional_texts_keep_their_characters(slice: Option<&str>, owned: Option<String>)
    ensures
        slice is None ==> opt_str(slice) is None,
        slice is Some ==> opt_str(slice) == Some(slice->0@),
        owned is None ==> opt_string(owned) is None,
        owned is Some ==> opt_string(owned) == Some(owned->0@),
{
}

/// A text occurs in another exactly when that one is made of some text, it, and
/// some text.
pub proof fn occurrence_splits_the_text(needle: Seq<char>, hay: Seq<char>)
    ensures
        occurs_in(needle, hay) <==> exists|before: Seq<char>, after: Seq<char>|
            hay == #[trigger] (before + needle + after),
{
    if occurs_in(needle, hay) {
        let i = choose|i: int| #[trigger] occurs_at(needle, hay, i);
        let before = hay.take(i);
        let after = hay.skip(i + needle.len());
        assert(hay.subrange(i, i + needle.len()) == needle);
        assert forall|k: int| 0 <= k < needle.len() implies needle[k] == hay[i + k] by {
            assert(hay.subrange(i, i + needle.len())[k] == hay[i + k]);
        }
        assert(hay =~= before + needle + after);
    }
    if exists|before: Seq<char>, after: Seq<char>| hay == #[trigger] (before + needle + after) {
        let (before, after) = choose|before: Seq<char>, after: Seq<char>|
            hay == #[trigger] (before + needle + after);
        let i = before.len() as int;
        assert(hay.subrange(i, i + needle.len()) =~= needle);
        assert(occurs_at(needle, hay, i));
    }
}

/// The decimal digits of a number, read from the left, make that number; they are
/// digits, and no zero stands in front.
pub proof fn decimal_digits_make_the_number(n: nat)
    ensures
        decimal(n).fold_left(0int, |value: int, c: char| 10 * value + (c as int - '0' as int)) == n,
        forall|i: int| 0 <= i < decimal(n).len() ==> '0' <= #[trigger] decimal(n)[i] <= '9',
        decimal(n).len() > 0,
        decimal(n).len() > 1 ==> decimal(n)[0] != '0',
    decreases n,
{
    let f = |value: int, c: char| 10 * value + (c as int - '0' as int);
    reveal(Seq::fold_left);
    if n < 10 {
        let one = decimal(n);
        assert(one.drop_last() =~= seq![]);
        assert(one.drop_last().fold_left(0int, f) == 0);
        assert(one.last() == digit(n));
    } else {
        decimal_digits_make_the_number(n / 10);
        let all = decimal(n);
        assert(all.drop_last() =~= decimal(n / 10));
        assert(all.last() == digit(n % 10));
        assert(all[0] == decimal(n / 10)[0]);
        if decimal(n / 10).len() == 1 {
            let head = decimal(n / 10);
            reveal_with_fuel(decimal, 2);
            assert(n / 10 < 10) by {
                if n / 10 >= 10 {
                    decimal_digits_make_the_number(n / 10 / 10);
                    assert(head == decimal(n / 10 / 10).push(digit(n / 10 % 10)));
                }
            }
        }
    }
}

} // verus!
