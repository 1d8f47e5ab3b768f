//! Verified string helpers: locating and splitting on a separator,
//! unescaping a separator's newline escapes, and generated column names.

use vstd::prelude::*;

verus! {

/// The separator occurs in `s` at position `i`.
pub open spec fn is_match_at(s: Seq<char>, sep: Seq<char>, i: int) -> bool {
    0 <= i && i + sep.len() <= s.len() && s.subrange(i, i + sep.len() as int) == sep
}

/// The first occurrence of `sep` in `s` at or after `from`, or -1.
pub open spec fn find_from(s: Seq<char>, sep: Seq<char>, from: int) -> int
    decreases s.len() - from,
    when 0 <= from <= s.len() && sep.len() >= 1
{
    if from + sep.len() > s.len() {
        -1
    } else if is_match_at(s, sep, from) {
        from
    } else {
        find_from(s, sep, from + 1)
    }
}

/// What `find_from` hands back: either no occurrence at all, or the first
/// one, within bounds.
pub proof fn lemma_find_from(s: Seq<char>, sep: Seq<char>, from: int)
    requires
        0 <= from <= s.len(),
        sep.len() >= 1,
    ensures
        find_from(s, sep, from) == -1 ==> forall|k: int|
            from <= k < s.len() ==> !is_match_at(s, sep, k),
        find_from(s, sep, from) != -1 ==> {
            &&& from <= find_from(s, sep, from)
            &&& find_from(s, sep, from) + sep.len() <= s.len()
            &&& is_match_at(s, sep, find_from(s, sep, from))
            &&& forall|k: int| from <= k < find_from(s, sep, from) ==> !is_match_at(s, sep, k)
        },
    decreases s.len() - from,
{
    if from + sep.len() > s.len() {
        assert forall|k: int| from <= k < s.len() implies !is_match_at(s, sep, k) by {}
    } else if is_match_at(s, sep, from) {
    } else {
        lemma_find_from(s, sep, from + 1);
    }
}

#[via_fn]
proof fn split_from_decreases(s: Seq<char>, sep: Seq<char>, from: int) {
    lemma_find_from(s, sep, from);
}

/// Splitting `s` on a nonempty separator, from position `from` on: the
/// piece before each occurrence, then the remainder.
pub open spec fn split_from(s: Seq<char>, sep: Seq<char>, from: int) -> Seq<Seq<char>>
    decreases s.len() - from,
    when 0 <= from <= s.len() && sep.len() >= 1
    via split_from_decreases
{
    let f = find_from(s, sep, from);
    if f < 0 {
        seq![s.subrange(from, s.len() as int)]
    } else {
        seq![s.subrange(from, f)] + split_from(s, sep, f + sep.len() as int)
    }
}

/// Splitting on the empty separator: an empty piece, each character on
/// its own, and an empty piece again.
pub open spec fn split_empty(s: Seq<char>) -> Seq<Seq<char>> {
    seq![Seq::<char>::empty()] + Seq::new(s.len(), |i: int| s.subrange(i, i + 1)) + seq![
        Seq::<char>::empty(),
    ]
}

/// Splitting `s` on `sep`, for any separator.
pub open spec fn spec_split(s: Seq<char>, sep: Seq<char>) -> Seq<Seq<char>> {
    if sep.len() == 0 {
        split_empty(s)
    } else {
        split_from(s, sep, 0)
    }
}

/// Replacing each `\n` escape with a newline character, left to right.
pub open spec fn unescape(s: Seq<char>) -> Seq<char>
    decreases s.len(),
{
    if s.len() == 0 {
        s
    } else if s.len() >= 2 && s[0] == '\\' && s[1] == 'n' {
        seq!['\n'] + unescape(s.subrange(2, s.len() as int))
    } else {
        seq![s[0]] + unescape(s.subrange(1, s.len() as int))
    }
}

/// Dropping the empty pieces of a split, keeping the order of the rest.
pub open spec fn drop_empty(ps: Seq<Seq<char>>) -> Seq<Seq<char>>
    decreases ps.len(),
{
    if ps.len() == 0 {
        ps
    } else if ps[0].len() == 0 {
        drop_empty(ps.drop_first())
    } else {
        seq![ps[0]] + drop_empty(ps.drop_first())
    }
}

/// The decimal digit character for `d`.
pub open spec fn digit_char(d: int) -> char {
    if d == 0 {
        '0'
    } else if d == 1 {
        '1'
    } else if d == 2 {
        '2'
    } else if d == 3 {
        '3'
    } else if d == 4 {
        '4'
    } else if d == 5 {
        '5'
    } else if d == 6 {
        '6'
    } else if d == 7 {
        '7'
    } else if d == 8 {
        '8'
    } else {
        '9'
    }
}

/// The decimal digits of `n`, most significant first.
pub open spec fn digits_of(n: int) -> Seq<char>
    decreases n,
{
    if n < 10 {
        seq![digit_char(n)]
    } else {
        digits_of(n / 10) + seq![digit_char(n % 10)]
    }
}

/// The generated name of column `i`.
pub open spec fn column_name_spec(i: int) -> Seq<char> {
    "Column"@ + digits_of(i)
}

/// The characters of a string, one by one.
#[verifier::loop_isolation(false)]
pub fn to_chars(s: &str) -> (r: Vec<char>)
    ensures
        r@ == s@,
{
    let n = s.unicode_len();
    let mut out: Vec<char> = Vec::new();
    let mut i: usize = 0;
    while i < n
        invariant
            i <= n,
            n == s@.len(),
            out@ == s@.subrange(0, i as int),
        decreases n - i,
    {
        let c = s.get_char(i);
        out.push(c);
        proof {
            assert(out@ =~= s@.subrange(0, i as int + 1));
        }
        i = i + 1;
    }
    proof {
        assert(out@ =~= s@);
    }
    out
}

/// Whether the separator occurs at position `i` of `cs`.
#[verifier::loop_isolation(false)]
fn match_at(cs: &Vec<char>, sep: &Vec<char>, i: usize) -> (r: bool)
    requires
        i <= cs@.len(),
    ensures
        r == is_match_at(cs@, sep@, i as int),
{
    if sep.len() > cs.len() - i {
        return false;
    }
    let mut j: usize = 0;
    while j < sep.len()
        invariant
            j <= sep@.len(),
            i + sep@.len() <= cs@.len(),
            forall|k: int| 0 <= k < j ==> cs@[i + k] == sep@[k],
        decreases sep@.len() - j,
    {
        if cs[i + j] != sep[j] {
            assert(cs@.subrange(i as int, i + sep@.len() as int)[j as int] != sep@[j as int]);
            return false;
        }
        j = j + 1;
    }
    proof {
        assert(cs@.subrange(i as int, i + sep@.len() as int) =~= sep@);
    }
    true
}

/// The first occurrence of the separator in `cs` at or after `from`.
#[verifier::loop_isolation(false)]
fn find_sub(cs: &Vec<char>, sep: &Vec<char>, from: usize) -> (r: Option<usize>)
    requires
        from <= cs@.len(),
        sep@.len() >= 1,
    ensures
        match r {
            Some(f) => f == find_from(cs@, sep@, from as int),
            None => find_from(cs@, sep@, from as int) == -1,
        },
{
    let mut i: usize = from;
    while cs.len() - i >= sep.len()
        invariant
            from <= i <= cs@.len(),
            sep@.len() >= 1,
            find_from(cs@, sep@, from as int) == find_from(cs@, sep@, i as int),
        decreases cs@.len() - i,
    {
        if match_at(cs, sep, i) {
            return Some(i);
        }
        i = i + 1;
    }
    None
}

/// Splits a string on a nonempty separator, handing back owned pieces.
#[verifier::loop_isolation(false)]
pub fn split_string(s: &String, sep: &Vec<char>) -> (r: Vec<String>)
    ensures
        sep@.len() >= 1 ==> r.deep_view() == split_from(s@, sep@, 0),
        sep@.len() == 0 ==> r.deep_view() == split_empty(s@),
{
    let str_ref = s.as_str();
    let n = str_ref.unicode_len();
    let mut out: Vec<String> = Vec::new();
    if sep.len() == 0 {
        out.push(String::new());
        let mut i: usize = 0;
        while i < n
            invariant
                i <= n,
                n == s@.len(),
                str_ref@ == s@,
                out.deep_view() =~= seq![Seq::<char>::empty()] + Seq::new(
                    i as nat,
                    |k: int| s@.subrange(k, k + 1),
                ),
            decreases n - i,
        {
            let ghost old_deep = out.deep_view();
            let piece = String::from_str(str_ref.substring_char(i, i + 1));
            proof {
                assert(piece.deep_view() == s@.subrange(i as int, i as int + 1));
            }
            out.push(piece);
            proof {
                assert(out.deep_view() =~= old_deep + seq![s@.subrange(i as int, i as int + 1)]);
                assert(out.deep_view() =~= seq![Seq::<char>::empty()] + Seq::new(
                    i as nat + 1,
                    |k: int| s@.subrange(k, k + 1),
                ));
            }
            i = i + 1;
        }
        out.push(String::new());
        proof {
            assert(out.deep_view() =~= split_empty(s@));
        }
        return out;
    }
    let mut cur: usize = 0;
    let cs = to_chars(str_ref);
    proof {
        assert(out.deep_view() =~= Seq::<Seq<char>>::empty());
        assert(Seq::<Seq<char>>::empty() + split_from(s@, sep@, 0) =~= split_from(s@, sep@, 0));
    }
    loop
        invariant
            cur <= n,
            n == s@.len(),
            str_ref@ == s@,
            cs@ == s@,
            sep@.len() >= 1,
            split_from(s@, sep@, 0) == out.deep_view() + split_from(s@, sep@, cur as int),
        decreases n - cur,
    {
        proof {
            lemma_find_from(cs@, sep@, cur as int);
        }
        match find_sub(&cs, sep, cur) {
            Some(f) => {
                let ghost old_deep = out.deep_view();
                let piece = String::from_str(str_ref.substring_char(cur, f));
                out.push(piece);
                let next = f + sep.len();
                proof {
                    assert(out.deep_view() =~= old_deep + seq![s@.subrange(cur as int, f as int)]);
                    assert(split_from(s@, sep@, cur as int) == seq![s@.subrange(
                        cur as int,
                        f as int,
                    )] + split_from(s@, sep@, next as int));
                    assert(old_deep + (seq![s@.subrange(cur as int, f as int)] + split_from(
                        s@,
                        sep@,
                        next as int,
                    )) =~= (old_deep + seq![s@.subrange(cur as int, f as int)]) + split_from(
                        s@,
                        sep@,
                        next as int,
                    ));
                }
                cur = next;
            },
            None => {
                let ghost old_deep = out.deep_view();
                let piece = String::from_str(str_ref.substring_char(cur, n));
                out.push(piece);
                proof {
                    assert(out.deep_view() =~= old_deep + seq![s@.subrange(
                        cur as int,
                        s@.len() as int,
                    )]);
                    assert(split_from(s@, sep@, cur as int) == seq![s@.subrange(
                        cur as int,
                        s@.len() as int,
                    )]);
                }
                return out;
            },
        }
    }
}

/// Unescapes `\n` sequences in a separator, as characters.
#[verifier::loop_isolation(false)]
pub fn unescape_chars(cs: &Vec<char>) -> (r: Vec<char>)
    ensures
        r@ == unescape(cs@),
{
    let n = cs.len();
    let mut out: Vec<char> = Vec::new();
    proof {
        assert(cs@.subrange(0, n as int) =~= cs@);
        assert(out@ =~= Seq::<char>::empty());
        assert(Seq::<char>::empty() + unescape(cs@) =~= unescape(cs@));
    }
    let mut i: usize = 0;
    while i < n
        invariant
            i <= n,
            n == cs@.len(),
            unescape(cs@) == out@ + unescape(cs@.subrange(i as int, n as int)),
        decreases n - i,
    {
        let ghost suffix = cs@.subrange(i as int, n as int);
        let ghost old_out = out@;
        if cs[i] == '\\' && i + 1 < n && cs[i + 1] == 'n' {
            out.push('\n');
            proof {
                assert(suffix[0] == cs@[i as int] && suffix.len() >= 2 && suffix[1] == cs@[i
                    + 1]);
                assert(suffix.subrange(2, suffix.len() as int) =~= cs@.subrange(
                    i as int + 2,
                    n as int,
                ));
                assert(unescape(suffix) == seq!['\n'] + unescape(
                    cs@.subrange(i as int + 2, n as int),
                ));
                assert(old_out + (seq!['\n'] + unescape(cs@.subrange(i as int + 2, n as int)))
                    =~= (old_out + seq!['\n']) + unescape(cs@.subrange(i as int + 2, n as int)));
            }
            i = i + 2;
        } else {
            let c = cs[i];
            out.push(c);
            proof {
                assert(suffix[0] == cs@[i as int]);
                if suffix.len() >= 2 && suffix[0] == '\\' && suffix[1] == 'n' {
                    assert(cs@[i + 1] == suffix[1]);
                    assert(false);
                }
                assert(suffix.subrange(1, suffix.len() as int) =~= cs@.subrange(
                    i as int + 1,
                    n as int,
                ));
                assert(unescape(suffix) == seq![cs@[i as int]] + unescape(
                    cs@.subrange(i as int + 1, n as int),
                ));
                assert(old_out + (seq![cs@[i as int]] + unescape(
                    cs@.subrange(i as int + 1, n as int),
                )) =~= (old_out + seq![cs@[i as int]]) + unescape(
                    cs@.subrange(i as int + 1, n as int),
                ));
            }
            i = i + 1;
        }
    }
    proof {
        assert(cs@.subrange(n as int, n as int).len() == 0);
        assert(unescape(cs@.subrange(n as int, n as int)) == cs@.subrange(n as int, n as int));
        assert(out@ =~= unescape(cs@));
    }
    out
}

/// One decimal digit as text.
fn digit_str(d: usize) -> (r: &'static str)
    requires
        d < 10,
    ensures
        r@ == seq![digit_char(d as int)],
{
    proof {
        reveal_strlit("0");
        reveal_strlit("1");
        reveal_strlit("2");
        reveal_strlit("3");
        reveal_strlit("4");
        reveal_strlit("5");
        reveal_strlit("6");
        reveal_strlit("7");
        reveal_strlit("8");
        reveal_strlit("9");
    }
    let r = match d {
        0 => "0",
        1 => "1",
        2 => "2",
        3 => "3",
        4 => "4",
        5 => "5",
        6 => "6",
        7 => "7",
        8 => "8",
        _ => "9",
    };
    proof {
        assert(r@ =~= seq![digit_char(d as int)]);
    }
    r
}

/// Appends the decimal digits of `n`.
fn push_digits(out: &mut String, n: usize)
    ensures
        final(out)@ == old(out)@ + digits_of(n as int),
    decreases n,
{
    if n < 10 {
        out.append(digit_str(n));
        assert(out@ =~= old(out)@ + digits_of(n as int));
    } else {
        push_digits(out, n / 10);
        out.append(digit_str(n % 10));
        proof {
            assert((old(out)@ + digits_of(n as int / 10)) + seq![digit_char(n as int % 10)]
                =~= old(out)@ + (digits_of(n as int / 10) + seq![digit_char(n as int % 10)]));
        }
    }
}

/// The generated name of column `i`: the word `Column` and the number.
pub fn column_name(i: usize) -> (r: String)
    ensures
        r@ == column_name_spec(i as int),
{
    let mut out = String::from_str("Column");
    push_digits(&mut out, i);
    out
}

} // verus!
