//! Text helpers shared by the SQL renderers: decimal formatting for
//! numbered placeholders and LIMIT/OFFSET clauses, a character-count
//! spec used to state the placeholder/bind-order law, database-format
//! name normalization, and prefix tests for dialect sniffing.

use vstd::prelude::*;

verus! {

/// The decimal digit character for `d` (meaningful for `d < 10`).
pub open spec fn digit_char(d: nat) -> char
    recommends
        d < 10,
{
    if d == 0 {
        '0'
    } else if d == 1 {
        '1'
    } else if d == 2 {
        '2'
    } else if d == 3 {
        '3'
    } else if d == 4 {
        '4'
    } else if d == 5 {
        '5'
    } else if d == 6 {
        '6'
    } else if d == 7 {
        '7'
    } else if d == 8 {
        '8'
    } else {
        '9'
    }
}

/// The decimal rendering of `n`, most significant digit first.
pub open spec fn dec_of(n: nat) -> Seq<char>
    decreases n,
{
    if n < 10 {
        seq![digit_char(n)]
    } else {
        dec_of(n / 10) + seq![digit_char(n % 10)]
    }
}

/// Every character of a decimal rendering is a digit.
pub proof fn lemma_dec_of_digits(n: nat)
    ensures
        forall|i: int|
            0 <= i < dec_of(n).len() ==> exists|d: nat| d < 10 && #[trigger] dec_of(n)[i]
                == digit_char(d),
    decreases n,
{
    if n < 10 {
        assert(dec_of(n)[0] == digit_char(n));
    } else {
        lemma_dec_of_digits(n / 10);
        assert(forall|i: int|
            0 <= i < dec_of(n / 10).len() ==> #[trigger] dec_of(n)[i] == dec_of(n / 10)[i]);
        assert(dec_of(n)[dec_of(n).len() - 1] == digit_char(n % 10));
    }
}

/// The single-character string for a digit.
fn digit_str(d: usize) -> (r: &'static str)
    requires
        d < 10,
    ensures
        r@ =~= seq![digit_char(d as nat)],
{
    proof {
        reveal_strlit("0");
        reveal_strlit("1");
        reveal_strlit("2");
        reveal_strlit("3");
        reveal_strlit("4");
        reveal_strlit("5");
        reveal_strlit("6");
        reveal_strlit("7");
        reveal_strlit("8");
        reveal_strlit("9");
    }
    match d {
        0 => "0",
        1 => "1",
        2 => "2",
        3 => "3",
        4 => "4",
        5 => "5",
        6 => "6",
        7 => "7",
        8 => "8",
        _ => "9",
    }
}

/// Renders `n` in decimal.
pub fn usize_to_string(n: usize) -> (r: String)
    ensures
        r@ == dec_of(n as nat),
    decreases n,
{
    if n < 10 {
        String::from_str(digit_str(n))
    } else {
        let high = usize_to_string(n / 10);
        high.concat(digit_str(n % 10))
    }
}

/// How many times `c` occurs in `s`.
pub open spec fn count_char(s: Seq<char>, c: char) -> nat
    decreases s.len(),
{
    if s.len() == 0 {
        0
    } else {
        count_char(s.drop_last(), c) + if s.last() == c {
            1nat
        } else {
            0nat
        }
    }
}

/// Character counts add up over concatenation.
pub broadcast proof fn lemma_count_char_concat(a: Seq<char>, b: Seq<char>, c: char)
    ensures
        #[trigger] count_char(a + b, c) == count_char(a, c) + count_char(b, c),
    decreases b.len(),
{
    if b.len() == 0 {
        assert(a + b =~= a);
    } else {
        lemma_count_char_concat(a, b.drop_last(), c);
        assert((a + b).drop_last() =~= a + b.drop_last());
        assert((a + b).last() == b.last());
    }
}

/// A one-character sequence counts as one occurrence or none.
pub proof fn lemma_count_char_single(x: char, c: char)
    ensures
        count_char(seq![x], c) == if x == c {
            1nat
        } else {
            0nat
        },
{
    let s = seq![x];
    assert(s.len() == 1);
    assert(s.last() == x);
    assert(s.drop_last() =~= Seq::<char>::empty());
    assert(count_char(s.drop_last(), c) == 0);
}

/// A sequence without `c` counts zero occurrences of it.
pub proof fn lemma_count_char_absent(s: Seq<char>, c: char)
    requires
        forall|i: int| 0 <= i < s.len() ==> s[i] != c,
    ensures
        count_char(s, c) == 0,
    decreases s.len(),
{
    if s.len() > 0 {
        lemma_count_char_absent(s.drop_last(), c);
    }
}

/// A decimal rendering contains no occurrence of a non-digit character.
pub proof fn lemma_dec_of_count(n: nat, c: char)
    requires
        forall|d: nat| d < 10 ==> c != digit_char(d),
    ensures
        count_char(dec_of(n), c) == 0,
{
    lemma_dec_of_digits(n);
    assert forall|i: int| 0 <= i < dec_of(n).len() implies dec_of(n)[i] != c by {
        let d = choose|d: nat| d < 10 && dec_of(n)[i] == digit_char(d);
    }
    lemma_count_char_absent(dec_of(n), c);
}

/// Whether `p` is a prefix of `s`.
pub open spec fn has_prefix(s: Seq<char>, p: Seq<char>) -> bool {
    s.len() >= p.len() && s.subrange(0, p.len() as int) =~= p
}

/// Tests whether `p` is a prefix of `s`, character by character.
pub fn str_has_prefix(s: &str, p: &str) -> (r: bool)
    ensures
        r == has_prefix(s@, p@),
{
    let s_len = s.unicode_len();
    let p_len = p.unicode_len();
    if s_len < p_len {
        return false;
    }
    let mut i: usize = 0;
    while i < p_len
        invariant
            0 <= i <= p_len,
            p_len == p@.len(),
            s_len == s@.len(),
            s_len >= p_len,
            forall|j: int| 0 <= j < i ==> s@[j] == p@[j],
        decreases p_len - i,
    {
        if s.get_char(i) != p.get_char(i) {
            assert(s@.subrange(0, p@.len() as int)[i as int] != p@[i as int]);
            return false;
        }
        i = i + 1;
    }
    assert(s@.subrange(0, p@.len() as int) =~= p@);
    true
}

/// The pieces joined by `sep`, in order.
pub open spec fn join_texts(items: Seq<Seq<char>>, sep: Seq<char>) -> Seq<char>
    decreases items.len(),
{
    if items.len() == 0 {
        Seq::empty()
    } else if items.len() == 1 {
        items[0]
    } else {
        items[0] + sep + join_texts(items.drop_first(), sep)
    }
}

/// Joining one more piece extends the text on the right.
pub proof fn lemma_join_texts_snoc(items: Seq<Seq<char>>, x: Seq<char>, sep: Seq<char>)
    requires
        items.len() >= 1,
    ensures
        join_texts(items.push(x), sep) == join_texts(items, sep) + sep + x,
    decreases items.len(),
{
    let ix = items.push(x);
    assert(ix[0] == items[0]);
    assert(ix.drop_first() =~= items.drop_first().push(x));
    if items.len() == 1 {
        assert(items.drop_first() =~= Seq::<Seq<char>>::empty());
        assert(ix.drop_first() =~= seq![x]);
        assert(join_texts(ix.drop_first(), sep) == x);
    } else {
        lemma_join_texts_snoc(items.drop_first(), x, sep);
        assert(items[0] + sep + (join_texts(items.drop_first(), sep) + sep + x) =~= (items[0] + sep
            + join_texts(items.drop_first(), sep)) + sep + x);
    }
}

/// Joins the strings with `sep` between them.
pub fn join_strings(items: &Vec<String>, sep: &str) -> (r: String)
    ensures
        r@ == join_texts(items.deep_view(), sep@),
{
    let mut acc = String::new();
    let mut i: usize = 0;
    while i < items.len()
        invariant
            0 <= i <= items@.len(),
            acc@ == join_texts(items.deep_view().take(i as int), sep@),
        decreases items@.len() - i,
    {
        if i > 0 {
            acc = acc.concat(sep);
        }
        acc = acc.concat(items[i].as_str());
        proof {
            let deep = items.deep_view();
            assert(deep[i as int] == items@[i as int]@);
            assert(deep.take(i as int).push(deep[i as int]) =~= deep.take(i + 1));
            if i > 0 {
                lemma_join_texts_snoc(deep.take(i as int), deep[i as int], sep@);
            } else {
                assert(deep.take(1)[0] == deep[0]);
            }
        }
        i = i + 1;
    }
    proof {
        assert(items.deep_view().take(items@.len() as int) =~= items.deep_view());
    }
    acc
}

/// Tests whether the collection holds a string spelled like `s`.
pub fn vec_contains_string(v: &Vec<String>, s: &String) -> (r: bool)
    ensures
        r == v.deep_view().contains(s@),
{
    let mut i: usize = 0;
    while i < v.len()
        invariant
            0 <= i <= v@.len(),
            forall|j: int| 0 <= j < i ==> v.deep_view()[j] != s@,
        decreases v@.len() - i,
    {
        if v[i] == *s {
            proof {
                assert(v.deep_view()[i as int] == v@[i as int]@);
            }
            return true;
        }
        proof {
            assert(v.deep_view()[i as int] == v@[i as int]@);
        }
        i = i + 1;
    }
    false
}

/// Tests whether two strings are spelled the same.
pub fn str_eq(a: &str, b: &str) -> (r: bool)
    ensures
        r == (a@ == b@),
{
    let sa = String::from_str(a);
    let sb = String::from_str(b);
    sa == sb
}

/// Tests whether `c` occurs in `s`.
pub fn str_contains_char(s: &str, c: char) -> (r: bool)
    ensures
        r == s@.contains(c),
{
    let len = s.unicode_len();
    let mut i: usize = 0;
    while i < len
        invariant
            0 <= i <= len,
            len == s@.len(),
            forall|j: int| 0 <= j < i ==> s@[j] != c,
        decreases len - i,
    {
        if s.get_char(i) == c {
            return true;
        }
        i = i + 1;
    }
    false
}

/// The name with a leading raw-identifier marker removed, if one is there.
pub open spec fn strip_raw_marker(s: Seq<char>) -> Seq<char> {
    if s.len() >= 2 && s[0] == 'r' && s[1] == '#' {
        s.subrange(2, s.len() as int)
    } else {
        s
    }
}

/// Removes the leading raw-identifier marker of a field name, if present.
pub fn strip_raw_prefix(s: &str) -> (r: &str)
    ensures
        r@ == strip_raw_marker(s@),
{
    let len = s.unicode_len();
    if len >= 2 && s.get_char(0) == 'r' && s.get_char(1) == '#' {
        s.substring_char(2, len)
    } else {
        s
    }
}

/// The database-format (snake case) spelling of a name.
pub uninterp spec fn snake_of(s: Seq<char>) -> Seq<char>;

/// Relies on heck's `ToSnakeCase` for `str`: the conversion reads only the
/// characters of its input, so equal inputs give equal results.
#[verifier::external_body]
pub fn snake_case(s: &str) -> (r: String)
    ensures
        r@ == snake_of(s@),
{
    heck::ToSnakeCase::to_snake_case(s)
}

/// The database-format spelling of a column or table name: the raw-identifier
/// marker is stripped and the rest converted to snake case.
pub open spec fn db_name_of(s: Seq<char>) -> Seq<char> {
    snake_of(strip_raw_marker(s))
}

/// Normalizes a declared column or table name to the database's format.
pub fn db_name(s: &str) -> (r: String)
    ensures
        r@ == db_name_of(s@),
{
    snake_case(strip_raw_prefix(s))
}

} // verus!
