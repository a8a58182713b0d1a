//! Character sequences: pieces between separators, splitting, joining and
//! decimal numerals.
//!
//! Everything here is stated over `Seq<char>`, the view of `str` and `String`.
//! Executable code works on a `Vec<char>` copy of a string so that a
//! character can be read by its index.

use vstd::prelude::*;
use vstd::string::*;

verus! {

/// Where the last piece of `s[lo..hi)` starts: one past the last `sep` in
/// that range, or `lo` when the range holds no `sep`.
pub open spec fn piece_start(s: Seq<char>, sep: char, lo: int, hi: int) -> int
    decreases hi - lo,
{
    if hi <= lo {
        lo
    } else if s[hi - 1] == sep {
        hi
    } else {
        piece_start(s, sep, lo, hi - 1)
    }
}

/// Where the text before the last piece of `s[lo..hi)` ends: just before the
/// separator in front of that piece, or `lo` when there is none.
pub open spec fn rest_end(s: Seq<char>, sep: char, lo: int, hi: int) -> int {
    let start = piece_start(s, sep, lo, hi);
    if start > lo {
        start - 1
    } else {
        lo
    }
}

/// The pieces of `s[0..hi)` between occurrences of `sep`, in order. A text
/// without `sep` is one piece; `n` separators give `n + 1` pieces, some of
/// which may be empty.
pub open spec fn split_upto(s: Seq<char>, sep: char, hi: int) -> Seq<Seq<char>>
    decreases hi,
{
    let start = piece_start(s, sep, 0, hi);
    let piece = s.subrange(start, hi);
    if 0 < start <= hi {
        split_upto(s, sep, start - 1).push(piece)
    } else {
        seq![piece]
    }
}

/// The pieces of `s` between occurrences of `sep`.
pub open spec fn split_on(s: Seq<char>, sep: char) -> Seq<Seq<char>> {
    split_upto(s, sep, s.len() as int)
}

/// The parts written one after the other with the text `sep` between
/// neighbours.
pub open spec fn join_with(parts: Seq<Seq<char>>, sep: Seq<char>) -> Seq<char>
    decreases parts.len(),
{
    if parts.len() == 0 {
        Seq::empty()
    } else if parts.len() == 1 {
        parts[0]
    } else {
        join_with(parts.drop_last(), sep) + sep + parts.last()
    }
}

/// The character that writes the digit `d`.
pub open spec fn digit_char(d: nat) -> char {
    if d == 0 {
        '0'
    } else if d == 1 {
        '1'
    } else if d == 2 {
        '2'
    } else if d == 3 {
        '3'
    } else if d == 4 {
        '4'
    } else if d == 5 {
        '5'
    } else if d == 6 {
        '6'
    } else if d == 7 {
        '7'
    } else if d == 8 {
        '8'
    } else {
        '9'
    }
}

/// The decimal numeral of `n`, without leading zeros.
pub open spec fn decimal(n: nat) -> Seq<char>
    decreases n,
{
    if n < 10 {
        seq![digit_char(n)]
    } else {
        decimal(n / 10).push(digit_char(n % 10))
    }
}

/// The number a sequence of decimal digits writes.
pub open spec fn digit_value(c: char) -> nat {
    if c == '1' {
        1
    } else if c == '2' {
        2
    } else if c == '3' {
        3
    } else if c == '4' {
        4
    } else if c == '5' {
        5
    } else if c == '6' {
        6
    } else if c == '7' {
        7
    } else if c == '8' {
        8
    } else if c == '9' {
        9
    } else {
        0
    }
}

/// The number that the digits of `s` write, read as a decimal numeral.
pub open spec fn numeral_value(s: Seq<char>) -> nat
    decreases s.len(),
{
    if s.len() == 0 {
        0
    } else {
        numeral_value(s.drop_last()) * 10 + digit_value(s.last())
    }
}

/// `piece_start` stays inside the range, the piece holds no separator, and a
/// separator stands just before a piece that does not start the range.
pub proof fn lemma_piece_start(s: Seq<char>, sep: char, lo: int, hi: int)
    requires
        0 <= lo <= hi <= s.len(),
    ensures
        lo <= piece_start(s, sep, lo, hi) <= hi,
        forall|k: int| piece_start(s, sep, lo, hi) <= k < hi ==> s[k] != sep,
        piece_start(s, sep, lo, hi) > lo ==> s[piece_start(s, sep, lo, hi) - 1] == sep,
        lo <= rest_end(s, sep, lo, hi) <= hi,
        lo < hi ==> rest_end(s, sep, lo, hi) < hi,
    decreases hi - lo,
{
    if hi > lo && s[hi - 1] != sep {
        lemma_piece_start(s, sep, lo, hi - 1);
    }
}

/// The last piece of a range depends only on the characters in the range.
pub proof fn lemma_piece_start_same(s: Seq<char>, t: Seq<char>, sep: char, lo: int, hi: int)
    requires
        0 <= lo <= hi <= s.len(),
        hi <= t.len(),
        forall|k: int| lo <= k < hi ==> s[k] == t[k],
    ensures
        piece_start(s, sep, lo, hi) == piece_start(t, sep, lo, hi),
    decreases hi - lo,
{
    if hi > lo && s[hi - 1] != sep {
        lemma_piece_start_same(s, t, sep, lo, hi - 1);
    }
}

/// A range without a separator is a single piece.
pub proof fn lemma_piece_start_no_sep(s: Seq<char>, sep: char, lo: int, mid: int, hi: int)
    requires
        0 <= lo <= mid <= hi <= s.len(),
        forall|k: int| mid <= k < hi ==> s[k] != sep,
    ensures
        piece_start(s, sep, lo, hi) == piece_start(s, sep, lo, mid),
    decreases hi - mid,
{
    if hi > mid {
        lemma_piece_start_no_sep(s, sep, lo, mid, hi - 1);
    }
}

/// Reading a numeral gives back the number it was written from.
pub proof fn lemma_numeral_value_of_decimal(n: nat)
    ensures
        numeral_value(decimal(n)) == n,
        decimal(n).len() >= 1,
        forall|k: int| 0 <= k < decimal(n).len() ==> '0' <= #[trigger] decimal(n)[k] <= '9',
    decreases n,
{
    if n < 10 {
        let s = decimal(n);
        assert(s.drop_last() =~= Seq::<char>::empty());
        assert(numeral_value(s.drop_last()) == 0);
    } else {
        lemma_numeral_value_of_decimal(n / 10);
        let s = decimal(n);
        assert(s.drop_last() =~= decimal(n / 10));
        assert(s.last() == digit_char(n % 10));
    }
}

/// Different numbers have different numerals.
pub proof fn lemma_decimal_injective(a: nat, b: nat)
    requires
        decimal(a) == decimal(b),
    ensures
        a == b,
{
    lemma_numeral_value_of_decimal(a);
    lemma_numeral_value_of_decimal(b);
}

/// A copy of the characters of `s`, readable by index.
pub fn chars_of(s: &str) -> (v: Vec<char>)
    ensures
        v@ == s@,
{
    let mut v: Vec<char> = Vec::new();
    for c in it: s.chars()
        invariant
            v@ == it.seq().take(it.index() as int),
    {
        v.push(c);
    }
    v
}

/// The characters `from..to` of `s` as a new string.
pub fn slice_text(s: &str, from: usize, to: usize) -> (r: String)
    requires
        from <= to <= s@.len(),
    ensures
        r@ == s@.subrange(from as int, to as int),
{
    s.substring_char(from, to).to_owned()
}

/// Whether two ranges of characters read the same.
pub fn ranges_equal(
    a: &Vec<char>,
    a_from: usize,
    a_to: usize,
    b: &Vec<char>,
    b_from: usize,
    b_to: usize,
) -> (r: bool)
    requires
        a_from <= a_to <= a.len(),
        b_from <= b_to <= b.len(),
    ensures
        r == (a@.subrange(a_from as int, a_to as int) == b@.subrange(b_from as int, b_to as int)),
{
    let ghost x = a@.subrange(a_from as int, a_to as int);
    let ghost y = b@.subrange(b_from as int, b_to as int);
    if a_to - a_from != b_to - b_from {
        assert(x.len() != y.len());
        return false;
    }
    let n = a_to - a_from;
    let mut k: usize = 0;
    while k < n
        invariant
            a_from <= a_to <= a.len(),
            b_from <= b_to <= b.len(),
            n == a_to - a_from,
            n == b_to - b_from,
            k <= n,
            x == a@.subrange(a_from as int, a_to as int),
            y == b@.subrange(b_from as int, b_to as int),
            forall|j: int| 0 <= j < k ==> x[j] == y[j],
        decreases n - k,
    {
        if a[a_from + k] != b[b_from + k] {
            assert(x[k as int] != y[k as int]);
            return false;
        }
        k += 1;
    }
    assert(x =~= y);
    true
}

/// Whether `a[from..to)` reads the same as all of `b`.
pub fn range_is(a: &Vec<char>, from: usize, to: usize, b: &Vec<char>) -> (r: bool)
    requires
        from <= to <= a.len(),
    ensures
        r == (a@.subrange(from as int, to as int) == b@),
{
    assert(b@.subrange(0, b.len() as int) =~= b@);
    ranges_equal(a, from, to, b, 0, b.len())
}

/// Where the last piece of `v[lo..hi)` starts.
pub fn find_piece_start(v: &Vec<char>, sep: char, lo: usize, hi: usize) -> (start: usize)
    requires
        lo <= hi <= v.len(),
    ensures
        start == piece_start(v@, sep, lo as int, hi as int),
        lo <= start <= hi,
{
    let mut i: usize = hi;
    while i > lo && v[i - 1] != sep
        invariant
            lo <= i <= hi <= v.len(),
            piece_start(v@, sep, lo as int, hi as int) == piece_start(v@, sep, lo as int, i as int),
        decreases i,
    {
        i -= 1;
    }
    i
}

/// Whether `needle` is one of the pieces of `text` between occurrences of
/// `sep`.
pub fn has_piece(text: &str, sep: char, needle: &str) -> (r: bool)
    ensures
        r == split_on(text@, sep).contains(needle@),
{
    let tv = chars_of(text);
    let nv = chars_of(needle);
    let mut found = false;
    let mut start: usize = 0;
    let mut i: usize = 0;
    while i < tv.len()
        invariant
            tv@ == text@,
            nv@ == needle@,
            start <= i <= tv.len(),
            start == piece_start(tv@, sep, 0, i as int),
            found == (start > 0 && split_upto(tv@, sep, start - 1).contains(nv@)),
        decreases tv.len() - i,
    {
        if tv[i] == sep {
            let hit = range_is(&tv, start, i, &nv);
            proof {
                let before = split_upto(tv@, sep, i as int);
                let piece = tv@.subrange(start as int, i as int);
                if start > 0 {
                    let earlier = split_upto(tv@, sep, start - 1);
                    assert(before == earlier.push(piece));
                    assert(before.last() == piece);
                    assert(before.drop_last() =~= earlier);
                    lemma_contains_push(earlier, piece, nv@);
                } else {
                    assert(before == seq![piece]);
                    lemma_contains_one(piece, nv@);
                }
            }
            found = found || hit;
            start = i + 1;
        }
        i += 1;
    }
    let hit = range_is(&tv, start, tv.len(), &nv);
    proof {
        let all = split_on(tv@, sep);
        let piece = tv@.subrange(start as int, tv.len() as int);
        if start > 0 {
            let earlier = split_upto(tv@, sep, start - 1);
            assert(all == earlier.push(piece));
            lemma_contains_push(earlier, piece, nv@);
        } else {
            assert(all == seq![piece]);
            lemma_contains_one(piece, nv@);
        }
    }
    found || hit
}

/// Membership in a sequence with one more element at its end.
pub proof fn lemma_contains_push<A>(s: Seq<A>, last: A, x: A)
    ensures
        s.push(last).contains(x) <==> (s.contains(x) || last == x),
{
    let t = s.push(last);
    if s.contains(x) {
        let i = choose|i: int| 0 <= i < s.len() && s[i] == x;
        assert(t[i] == x);
    }
    if last == x {
        assert(t[s.len() as int] == x);
    }
    if t.contains(x) {
        let i = choose|i: int| 0 <= i < t.len() && t[i] == x;
        if i < s.len() {
            assert(s[i] == x);
        }
    }
}

/// Membership in a sequence of one element.
pub proof fn lemma_contains_one<A>(only: A, x: A)
    ensures
        seq![only].contains(x) <==> only == x,
{
    let t = seq![only];
    if only == x {
        assert(t[0] == x);
    }
}

/// The one-character text that writes the digit `d`.
fn digit_text(d: u8) -> (r: &'static str)
    requires
        d < 10,
    ensures
        r@ == seq![digit_char(d as nat)],
{
    proof {
        reveal_strlit("0");
        reveal_strlit("1");
        reveal_strlit("2");
        reveal_strlit("3");
        reveal_strlit("4");
        reveal_strlit("5");
        reveal_strlit("6");
        reveal_strlit("7");
        reveal_strlit("8");
        reveal_strlit("9");
    }
    let r = if d == 0 {
        "0"
    } else if d == 1 {
        "1"
    } else if d == 2 {
        "2"
    } else if d == 3 {
        "3"
    } else if d == 4 {
        "4"
    } else if d == 5 {
        "5"
    } else if d == 6 {
        "6"
    } else if d == 7 {
        "7"
    } else if d == 8 {
        "8"
    } else {
        "9"
    };
    assert(r@ =~= seq![digit_char(d as nat)]);
    r
}

/// The decimal numeral of `n`.
pub fn decimal_string(n: u128) -> (r: String)
    ensures
        r@ == decimal(n as nat),
    decreases n,
{
    if n < 10 {
        digit_text(n as u8).to_owned()
    } else {
        let mut r = decimal_string(n / 10);
        r.append(digit_text((n % 10) as u8));
        assert(r@ =~= decimal(n as nat));
        r
    }
}

/// The texts written one after the other with `sep` between neighbours.
pub fn join_strings(parts: &Vec<String>, sep: &str) -> (r: String)
    ensures
        r@ == join_with(parts@.map_values(|p: String| p@), sep@),
{
    let ghost views = parts@.map_values(|p: String| p@);
    let mut r = String::new();
    let mut i: usize = 0;
    while i < parts.len()
        invariant
            i <= parts.len(),
            views == parts@.map_values(|p: String| p@),
            r@ == join_with(views.take(i as int), sep@),
        decreases parts.len() - i,
    {
        proof {
            let next = views.take(i + 1);
            assert(next.drop_last() =~= views.take(i as int));
            assert(next.last() == parts@[i as int]@);
        }
        if i > 0 {
            r.append(sep);
        }
        r.append(parts[i].as_str());
        assert(r@ =~= join_with(views.take(i + 1), sep@));
        i += 1;
    }
    assert(views.take(parts.len() as int) =~= views);
    r
}

/// The pieces of a prefix depend only on the characters of the prefix.
pub proof fn lemma_split_upto_same(s: Seq<char>, t: Seq<char>, sep: char, hi: int)
    requires
        0 <= hi <= s.len(),
        hi <= t.len(),
        forall|k: int| 0 <= k < hi ==> s[k] == t[k],
    ensures
        split_upto(s, sep, hi) == split_upto(t, sep, hi),
    decreases hi,
{
    lemma_piece_start(s, sep, 0, hi);
    lemma_piece_start_same(s, t, sep, 0, hi);
    let start = piece_start(s, sep, 0, hi);
    assert(s.subrange(start, hi) =~= t.subrange(start, hi));
    if 0 < start {
        lemma_split_upto_same(s, t, sep, start - 1);
    }
}

/// Whether the text holds no `sep`.
pub open spec fn lacks(s: Seq<char>, sep: char) -> bool {
    forall|k: int| 0 <= k < s.len() ==> s[k] != sep
}

/// Splitting what was joined gives the parts back, where there is at least
/// one part and no part holds the separator.
pub proof fn lemma_split_of_join(parts: Seq<Seq<char>>, sep: char)
    requires
        parts.len() > 0,
        forall|i: int| 0 <= i < parts.len() ==> lacks(#[trigger] parts[i], sep),
    ensures
        split_on(join_with(parts, seq![sep]), sep) == parts,
    decreases parts.len(),
{
    let joined = join_with(parts, seq![sep]);
    let last = parts.last();
    if parts.len() == 1 {
        assert(joined == parts[0]);
        assert(lacks(parts[0], sep));
        lemma_piece_start_no_sep(joined, sep, 0, 0, joined.len() as int);
        assert(joined.subrange(0, joined.len() as int) =~= joined);
        assert(split_on(joined, sep) =~= parts);
    } else {
        let head = join_with(parts.drop_last(), seq![sep]);
        assert(joined =~= head.push(sep) + last);
        let cut = head.len() as int;
        assert(joined[cut] == sep);
        assert(lacks(parts[parts.len() - 1], sep));
        assert forall|k: int| cut + 1 <= k < joined.len() implies joined[k] != sep by {
            assert(joined[k] == last[k - cut - 1]);
        }
        assert forall|i: int| 0 <= i < parts.drop_last().len() implies lacks(
            #[trigger] parts.drop_last()[i],
            sep,
        ) by {
            assert(parts.drop_last()[i] == parts[i]);
        }
        lemma_piece_start_no_sep(joined, sep, 0, cut + 1, joined.len() as int);
        assert(piece_start(joined, sep, 0, joined.len() as int) == cut + 1);
        assert(joined.subrange(cut + 1, joined.len() as int) =~= last);
        lemma_split_upto_same(joined, head, sep, cut);
        lemma_split_of_join(parts.drop_last(), sep);
        assert(split_on(joined, sep) =~= parts);
    }
}

} // verus!
