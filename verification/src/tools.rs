//! Small helpers shared across the crate: string comparison, joining and
//! decimal formatting.

use vstd::prelude::*;

verus! {

/// Relies on String::push: it appends the given character to the end of
/// the string, and does nothing else.
pub assume_specification[ String::push ](s: &mut String, c: char)
    ensures
        final(s)@ == old(s)@.push(c),
;

/// Compare two string slices character by character.
pub fn str_eq(a: &str, b: &str) -> (r: bool)
    ensures
        r == (a@ == b@),
{
    let la = a.unicode_len();
    let lb = b.unicode_len();
    if la != lb {
        return false;
    }
    let mut i: usize = 0;
    while i < la
        invariant
            i <= la,
            la == a@.len() && la == b@.len(),
            forall|j: int| 0 <= j < i ==> a@[j] == b@[j],
        decreases la - i,
    {
        if a.get_char(i) != b.get_char(i) {
            return false;
        }
        i += 1;
    }
    proof {
        assert(a@ =~= b@);
    }
    true
}

/// Whether `s` occurs in the list of names `v`.
pub fn contains_ident(v: &Vec<String>, s: &str) -> (r: bool)
    ensures
        r == v.deep_view().to_set().contains(s@),
{
    let mut i: usize = 0;
    while i < v.len()
        invariant
            i <= v.len(),
            forall|j: int| 0 <= j < i ==> v.deep_view()[j] != s@,
        decreases v.len() - i,
    {
        if str_eq(v[i].as_str(), s) {
            assert(v.deep_view()[i as int] == s@);
            return true;
        }
        i += 1;
    }
    assert(!v.deep_view().contains(s@));
    false
}

/// The text of the values of `vec`, with `sep` between each two.
pub open spec fn spec_list_str(items: Seq<Seq<char>>, sep: Seq<char>) -> Seq<char>
    decreases items,
{
    if items.len() == 0 {
        Seq::empty()
    } else if items.len() == 1 {
        items[0]
    } else {
        items[0] + sep + spec_list_str(items.drop_first(), sep)
    }
}

/// Return the formatted list, putting `sep` between each two values.
pub fn list_str(vec: &Vec<String>, sep: &str) -> (r: String)
    ensures
        r@ == spec_list_str(vec.deep_view(), sep@),
{
    let mut r = String::new();
    let n = vec.len();
    let mut i: usize = 0;
    while i < n
        invariant
            i <= n,
            n == vec@.len(),
            r@ == spec_list_str(vec.deep_view().take(i as int), sep@) + (
            if 0 < i < n {
                sep@
            } else {
                Seq::<char>::empty()
            }),
        decreases n - i,
    {
        r.append(vec[i].as_str());
        if i < n - 1 {
            r.append(sep);
        }
        proof {
            lemma_list_str_take(vec.deep_view(), sep@, i as int);
            if i + 1 < n {
                assert(r@ =~= spec_list_str(vec.deep_view().take(i + 1), sep@) + sep@);
            } else {
                assert(r@ =~= spec_list_str(vec.deep_view().take(i + 1), sep@));
            }
        }
        i += 1;
    }
    proof {
        if n == 0 {
            assert(vec.deep_view().take(0) =~= Seq::<Seq<char>>::empty());
            assert(r@ =~= spec_list_str(vec.deep_view(), sep@));
        } else {
            assert(vec.deep_view().take(n as int) =~= vec.deep_view());
            assert(r@ =~= spec_list_str(vec.deep_view(), sep@));
        }
    }
    r
}

/// Joining one more item appends a separator (between items) and the item.
pub proof fn lemma_list_str_take(items: Seq<Seq<char>>, sep: Seq<char>, i: int)
    requires
        0 <= i < items.len(),
    ensures
        spec_list_str(items.take(i + 1), sep) =~= spec_list_str(items.take(i), sep) + (
        if i > 0 {
            sep
        } else {
            Seq::<char>::empty()
        }) + items[i],
    decreases i,
{
    if i == 0 {
        assert(items.take(1) =~= seq![items[0]]);
        assert(items.take(0) =~= Seq::<Seq<char>>::empty());
        assert(spec_list_str(items.take(1), sep) == items[0]);
        assert(spec_list_str(items.take(1), sep) =~= spec_list_str(items.take(0), sep) + Seq::<
            char,
        >::empty() + items[0]);
    } else {
        lemma_list_str_take(items.drop_first(), sep, i - 1);
        assert(items.take(i + 1).drop_first() =~= items.drop_first().take(i));
        assert(items.take(i).drop_first() =~= items.drop_first().take(i - 1));
        assert(items.take(i + 1)[0] == items[0]);
        assert(items.take(i)[0] == items[0]);
        assert(items.drop_first()[i - 1] == items[i]);
        if i == 1 {
            assert(items.take(2) =~= seq![items[0], items[1]]);
            assert(items.take(2).drop_first() =~= seq![items[1]]);
            assert(spec_list_str(items.take(2), sep) == items[0] + sep + items[1]);
            assert(items.take(1) =~= seq![items[0]]);
            assert(spec_list_str(items.take(2), sep) =~= spec_list_str(items.take(1), sep) + sep
                + items[1]);
        } else {
            assert(spec_list_str(items.take(i + 1), sep) =~= spec_list_str(items.take(i), sep) + sep
                + items[i]);
        }
    }
}

/// The decimal digits of `n`, most significant first.
pub open spec fn spec_decimal(n: nat) -> Seq<char>
    decreases n,
{
    if n < 10 {
        seq![digit_char(n)]
    } else {
        spec_decimal(n / 10) + seq![digit_char(n % 10)]
    }
}

/// The character of one decimal digit.
pub open spec fn digit_char(d: nat) -> char {
    if d == 0 {
        '0'
    } else if d == 1 {
        '1'
    } else if d == 2 {
        '2'
    } else if d == 3 {
        '3'
    } else if d == 4 {
        '4'
    } else if d == 5 {
        '5'
    } else if d == 6 {
        '6'
    } else if d == 7 {
        '7'
    } else if d == 8 {
        '8'
    } else {
        '9'
    }
}

/// One decimal digit as a string slice.
fn digit_str(d: usize) -> (r: &'static str)
    requires
        d < 10,
    ensures
        r@ == seq![digit_char(d as nat)],
{
    let r: &'static str = match d {
        0 => "0",
        1 => "1",
        2 => "2",
        3 => "3",
        4 => "4",
        5 => "5",
        6 => "6",
        7 => "7",
        8 => "8",
        _ => "9",
    };
    proof {
        reveal_strlit("0");
        reveal_strlit("1");
        reveal_strlit("2");
        reveal_strlit("3");
        reveal_strlit("4");
        reveal_strlit("5");
        reveal_strlit("6");
        reveal_strlit("7");
        reveal_strlit("8");
        reveal_strlit("9");
    }
    r
}

/// Format `n` in decimal.
pub fn decimal_str(n: usize) -> (r: String)
    ensures
        r@ == spec_decimal(n as nat),
    decreases n,
{
    if n < 10 {
        String::from_str(digit_str(n))
    } else {
        let mut r = decimal_str(n / 10);
        r.append(digit_str(n % 10));
        proof {
            assert(r@ =~= spec_decimal(n as nat));
        }
        r
    }
}

} // verus!
