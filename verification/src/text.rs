//! Character and byte sequence helpers: splitting on a separator, comparing,
//! suffix tests and decimal rendering.
use vstd::prelude::*;
use vstd::std_specs::iter::IteratorSpec;

verus! {

broadcast use vstd::string::group_string_axioms;

/// The pieces of `s` between the occurrences of `sep`, in order, as `split`
/// with a one-element pattern yields them. There is always at least one piece.
pub open spec fn split_seq<T>(s: Seq<T>, sep: T) -> Seq<Seq<T>>
    decreases s.len(),
{
    if s.len() == 0 {
        seq![Seq::empty()]
    } else {
        let front = split_seq(s.drop_last(), sep);
        if s.last() == sep {
            front.push(Seq::empty())
        } else {
            front.update(front.len() - 1, front.last().push(s.last()))
        }
    }
}

pub proof fn lemma_split_seq_nonempty<T>(s: Seq<T>, sep: T)
    ensures
        split_seq(s, sep).len() >= 1,
    decreases s.len(),
{
    if s.len() > 0 {
        lemma_split_seq_nonempty(s.drop_last(), sep);
    }
}

/// A sequence without the separator is a single piece.
pub proof fn lemma_split_seq_no_sep<T>(s: Seq<T>, sep: T)
    requires
        !s.contains(sep),
    ensures
        split_seq(s, sep) == seq![s],
    decreases s.len(),
{
    if s.len() > 0 {
        let t = s.drop_last();
        assert(!t.contains(sep)) by {
            if t.contains(sep) {
                let k = choose|k: int| 0 <= k < t.len() && t[k] == sep;
                assert(s[k] == sep);
            }
        }
        lemma_split_seq_no_sep(t, sep);
        assert(s[s.len() - 1] != sep);
        assert(t.push(s.last()) =~= s);
    } else {
        assert(s =~= Seq::<T>::empty());
    }
}

/// Appending the separator adds one empty piece at the end.
pub proof fn lemma_split_seq_push_sep<T>(s: Seq<T>, sep: T)
    ensures
        split_seq(s.push(sep), sep) == split_seq(s, sep).push(Seq::empty()),
{
    assert(s.push(sep).drop_last() =~= s);
}

/// A separator followed by a text without the separator adds that text as
/// one more piece.
pub proof fn lemma_split_seq_append_piece<T>(a: Seq<T>, sep: T, b: Seq<T>)
    requires
        !b.contains(sep),
    ensures
        split_seq(a.push(sep) + b, sep) == split_seq(a, sep).push(b),
    decreases b.len(),
{
    if b.len() == 0 {
        assert(a.push(sep) + b =~= a.push(sep));
        assert(b =~= Seq::<T>::empty());
        lemma_split_seq_push_sep(a, sep);
    } else {
        let c = b.last();
        let front = b.drop_last();
        assert(!front.contains(sep)) by {
            if front.contains(sep) {
                let k = choose|k: int| 0 <= k < front.len() && front[k] == sep;
                assert(b[k] == sep);
            }
        }
        assert(c != sep) by {
            assert(b[b.len() - 1] == c);
        }
        lemma_split_seq_append_piece(a, sep, front);
        let whole = a.push(sep) + b;
        assert(whole.drop_last() =~= a.push(sep) + front);
        assert(whole.last() == c);
        let prev = split_seq(a, sep).push(front);
        assert(split_seq(whole.drop_last(), sep) == prev);
        assert(split_seq(whole, sep) == prev.update(prev.len() - 1, prev.last().push(c)));
        assert(prev.last() == front);
        assert(front.push(c) =~= b);
        assert(prev.update(prev.len() - 1, b) =~= split_seq(a, sep).push(b));
    }
}

/// A value absent from the text is absent from every piece.
pub proof fn lemma_split_seq_pieces_lack<T>(s: Seq<T>, sep: T, x: T)
    requires
        !s.contains(x),
    ensures
        forall|i: int| 0 <= i < split_seq(s, sep).len() ==> !(#[trigger] split_seq(s, sep)[i]).contains(x),
    decreases s.len(),
{
    if s.len() > 0 {
        let t = s.drop_last();
        assert(!t.contains(x)) by {
            if t.contains(x) {
                let k = choose|k: int| 0 <= k < t.len() && t[k] == x;
                assert(s[k] == x);
            }
        }
        assert(s[s.len() - 1] != x);
        let front = split_seq(t, sep);
        lemma_split_seq_pieces_lack(t, sep, x);
        lemma_split_seq_nonempty(t, sep);
        let r = split_seq(s, sep);
        assert forall|i: int| 0 <= i < r.len() implies !(#[trigger] r[i]).contains(x) by {
            if s.last() == sep {
                if i < front.len() {
                    assert(r[i] == front[i]);
                } else {
                    assert(r[i] =~= Seq::<T>::empty());
                }
            } else {
                if i < front.len() - 1 {
                    assert(r[i] == front[i]);
                } else {
                    let p = front.last().push(s.last());
                    assert(r[i] == p);
                    if p.contains(x) {
                        let k = choose|k: int| 0 <= k < p.len() && p[k] == x;
                        if k < p.len() - 1 {
                            assert(front[front.len() - 1][k] == x);
                        }
                    }
                }
            }
        }
    }
}

/// The nonempty pieces, in order.
pub open spec fn nonempty_pieces<T>(ps: Seq<Seq<T>>) -> Seq<Seq<T>> {
    ps.filter(|p: Seq<T>| p.len() > 0)
}

/// The characters of `s`, in order.
pub fn chars_of(s: &str) -> (out: Vec<char>)
    ensures
        out@ == s@,
{
    let mut out: Vec<char> = Vec::new();
    let mut it = s.chars();
    let ghost whole = s@;
    assert(whole.skip(0) =~= whole);
    loop
        invariant
            it.obeys_prophetic_iter_laws(),
            whole == s@,
            it.remaining() == whole.skip(out@.len() as int),
            out@ == whole.take(out@.len() as int),
            out@.len() <= whole.len(),
        decreases whole.len() - out@.len(),
    {
        match it.next() {
            Some(c) => {
                out.push(c);
                assert(out@ =~= whole.take(out@.len() as int));
            }
            None => {
                assert(out@ =~= whole);
                return out;
            }
        }
    }
}

/// Splits `s` on every occurrence of `sep`.
pub fn split_str(s: &str, sep: char) -> (pieces: Vec<String>)
    ensures
        pieces.deep_view() == split_seq(s@, sep),
{
    let cs = chars_of(s);
    let mut pieces: Vec<String> = Vec::new();
    let mut start: usize = 0;
    let mut i: usize = 0;
    assert(s@.take(0) =~= Seq::<char>::empty());
    assert(pieces.deep_view().push(s@.subrange(0, 0)) =~= seq![Seq::<char>::empty()]);
    while i < cs.len()
        invariant
            cs@ == s@,
            start <= i <= cs.len(),
            split_seq(s@.take(i as int), sep) == pieces.deep_view().push(
                s@.subrange(start as int, i as int),
            ),
        decreases cs.len() - i,
    {
        let ghost before = pieces.deep_view();
        assert(s@.take(i + 1).drop_last() =~= s@.take(i as int));
        if cs[i] == sep {
            let piece = String::from_str(s.substring_char(start, i));
            pieces.push(piece);
            start = i + 1;
            assert(pieces.deep_view() =~= before.push(piece@));
            assert(s@.subrange(start as int, i + 1) =~= Seq::<char>::empty());
        } else {
            assert(s@.subrange(start as int, i + 1) =~= s@.subrange(start as int, i as int).push(
                cs@[i as int],
            ));
        }
        i = i + 1;
    }
    let ghost before = pieces.deep_view();
    let last = String::from_str(s.substring_char(start, cs.len()));
    pieces.push(last);
    assert(pieces.deep_view() =~= before.push(last@));
    assert(s@.take(cs.len() as int) =~= s@);
    pieces
}

/// Splits the bytes `s` on every occurrence of `sep`.
pub fn split_bytes(s: &[u8], sep: u8) -> (pieces: Vec<Vec<u8>>)
    ensures
        pieces.deep_view() == split_seq(s@, sep),
{
    let mut pieces: Vec<Vec<u8>> = Vec::new();
    let mut start: usize = 0;
    let mut i: usize = 0;
    assert(s@.take(0) =~= Seq::<u8>::empty());
    assert(pieces.deep_view().push(s@.subrange(0, 0)) =~= seq![Seq::<u8>::empty()]);
    while i < s.len()
        invariant
            start <= i <= s.len(),
            split_seq(s@.take(i as int), sep) == pieces.deep_view().push(
                s@.subrange(start as int, i as int),
            ),
        decreases s.len() - i,
    {
        let ghost before = pieces.deep_view();
        assert(s@.take(i + 1).drop_last() =~= s@.take(i as int));
        if s[i] == sep {
            let piece = vstd::slice::slice_to_vec(&s[start..i]);
            assert(piece.deep_view() =~= piece@);
            pieces.push(piece);
            start = i + 1;
            assert(pieces.deep_view() =~= before.push(piece@));
            assert(s@.subrange(start as int, i + 1) =~= Seq::<u8>::empty());
        } else {
            assert(s@.subrange(start as int, i + 1) =~= s@.subrange(start as int, i as int).push(
                s@[i as int],
            ));
        }
        i = i + 1;
    }
    let ghost before = pieces.deep_view();
    let last = vstd::slice::slice_to_vec(&s[start..s.len()]);
    assert(last.deep_view() =~= last@);
    pieces.push(last);
    assert(pieces.deep_view() =~= before.push(last@));
    assert(s@.take(s.len() as int) =~= s@);
    pieces
}


/// The nonempty pieces of `s` between occurrences of `sep`.
pub fn nonempty_split(s: &str, sep: char) -> (pieces: Vec<String>)
    ensures
        pieces.deep_view() == nonempty_pieces(split_seq(s@, sep)),
{
    let all = split_str(s, sep);
    let ghost ps = all.deep_view();
    let mut out: Vec<String> = Vec::new();
    let mut i: usize = 0;
    assert(ps.take(0) =~= Seq::<Seq<char>>::empty());
    assert(nonempty_pieces(ps.take(0)) =~= Seq::<Seq<char>>::empty()) by {
        reveal_with_fuel(Seq::<_>::filter, 1);
    }
    while i < all.len()
        invariant
            ps == all.deep_view(),
            i <= all.len(),
            out.deep_view() == nonempty_pieces(ps.take(i as int)),
        decreases all.len() - i,
    {
        let ghost before = out.deep_view();
        assert(ps.take(i + 1).drop_last() =~= ps.take(i as int));
        assert(ps[i as int] == all[i as int]@);
        if !all[i].as_str().is_empty() {
            let piece = all[i].clone();
            out.push(piece);
            assert(out.deep_view() =~= before.push(piece@));
        } else {
            assert(out.deep_view() =~= before);
        }
        assert(nonempty_pieces(ps.take(i + 1)) == out.deep_view()) by {
            reveal_with_fuel(Seq::<_>::filter, 1);
        }
        i = i + 1;
    }
    assert(ps.take(all.len() as int) =~= ps);
    out
}

/// Whether the two texts hold the same characters.
pub fn text_eq(a: &str, b: &str) -> (same: bool)
    ensures
        same == (a@ == b@),
{
    let x = chars_of(a);
    let y = chars_of(b);
    if x.len() != y.len() {
        return false;
    }
    let mut i: usize = 0;
    while i < x.len()
        invariant
            x@ == a@,
            y@ == b@,
            x.len() == y.len(),
            i <= x.len(),
            forall|k: int| 0 <= k < i ==> x@[k] == y@[k],
        decreases x.len() - i,
    {
        if x[i] != y[i] {
            return false;
        }
        i = i + 1;
    }
    assert(a@ =~= b@);
    true
}

/// Whether `s` ends with `suffix`.
pub open spec fn ends_with<T>(s: Seq<T>, suffix: Seq<T>) -> bool {
    suffix.len() <= s.len() && s.subrange(s.len() - suffix.len(), s.len() as int) == suffix
}

/// Whether the text `s` ends with the text `suffix`.
pub fn text_ends_with(s: &str, suffix: &str) -> (r: bool)
    ensures
        r == ends_with(s@, suffix@),
{
    let x = chars_of(s);
    let y = chars_of(suffix);
    if y.len() > x.len() {
        return false;
    }
    let off = x.len() - y.len();
    let mut i: usize = 0;
    while i < y.len()
        invariant
            x@ == s@,
            y@ == suffix@,
            y.len() <= x.len(),
            off == x.len() - y.len(),
            i <= y.len(),
            forall|k: int| 0 <= k < i ==> x@[off + k] == y@[k],
        decreases y.len() - i,
    {
        if x[off + i] != y[i] {
            assert(s@.subrange(off as int, s@.len() as int)[i as int] != suffix@[i as int]);
            return false;
        }
        i = i + 1;
    }
    assert(s@.subrange(off as int, s@.len() as int) =~= suffix@);
    true
}

/// Whether `c` occurs among `cs`.
pub fn contains_char(cs: &Vec<char>, c: char) -> (r: bool)
    ensures
        r == cs@.contains(c),
{
    let mut i: usize = 0;
    while i < cs.len()
        invariant
            i <= cs.len(),
            forall|k: int| 0 <= k < i ==> cs@[k] != c,
        decreases cs.len() - i,
    {
        if cs[i] == c {
            assert(cs@[i as int] == c);
            return true;
        }
        i = i + 1;
    }
    false
}


/// An ASCII decimal digit.
pub open spec fn is_digit(c: char) -> bool {
    '0' <= c && c <= '9'
}

/// The value of the digit `c`.
pub open spec fn digit_value(c: char) -> nat {
    (c as nat - '0' as nat) as nat
}

/// The value of a sequence of decimal digits, most significant first.
pub open spec fn decimal_value(ds: Seq<char>) -> nat
    decreases ds.len(),
{
    if ds.len() == 0 {
        0
    } else {
        decimal_value(ds.drop_last()) * 10 + digit_value(ds.last())
    }
}

/// The digits of an unsigned number text: a leading `+` is allowed.
pub open spec fn unsigned_digits(s: Seq<char>) -> Seq<char> {
    if s.len() > 0 && s[0] == '+' {
        s.drop_first()
    } else {
        s
    }
}

/// Whether `s` reads as a `u64` the way `str::parse::<u64>` accepts it: an
/// optional `+`, then at least one decimal digit and nothing else, with a value
/// that fits in 64 bits.
pub open spec fn parses_as_u64(s: Seq<char>) -> bool {
    let ds = unsigned_digits(s);
    &&& ds.len() > 0
    &&& forall|i: int| 0 <= i < ds.len() ==> is_digit(#[trigger] ds[i])
    &&& decimal_value(ds) <= u64::MAX
}

/// A prefix of a digit sequence has no greater value than the whole.
pub proof fn lemma_decimal_prefix_le(ds: Seq<char>, k: int)
    requires
        0 <= k <= ds.len(),
    ensures
        decimal_value(ds.take(k)) <= decimal_value(ds),
    decreases ds.len(),
{
    if k < ds.len() {
        assert(ds.drop_last().take(k) =~= ds.take(k));
        lemma_decimal_prefix_le(ds.drop_last(), k);
    } else {
        assert(ds.take(k) =~= ds);
    }
}

/// Whether the text `s` parses as a `u64`.
pub fn parses_u64(s: &str) -> (ok: bool)
    ensures
        ok == parses_as_u64(s@),
{
    let cs = chars_of(s);
    let ghost ds = unsigned_digits(s@);
    let mut start: usize = 0;
    if cs.len() > 0 && cs[0] == '+' {
        start = 1;
    }
    assert(ds =~= s@.subrange(start as int, s@.len() as int));
    if start >= cs.len() {
        return false;
    }
    let mut i: usize = start;
    let mut acc: u64 = 0;
    assert(ds.take(0) =~= Seq::<char>::empty());
    while i < cs.len()
        invariant
            cs@ == s@,
            ds == s@.subrange(start as int, s@.len() as int),
            ds == unsigned_digits(s@),
            start <= i <= cs.len(),
            acc == decimal_value(ds.take(i - start)),
            forall|k: int| 0 <= k < i - start ==> is_digit(#[trigger] ds[k]),
        decreases cs.len() - i,
    {
        let c = cs[i];
        assert(ds[i - start] == c);
        if !('0' <= c && c <= '9') {
            assert(!is_digit(ds[i - start]));
            return false;
        }
        let d: u64 = ((c as u32) - ('0' as u32)) as u64;
        assert(ds.take(i - start + 1).drop_last() =~= ds.take(i - start));
        assert(decimal_value(ds.take(i - start + 1)) == acc * 10 + d);
        if acc > (u64::MAX - d) / 10 {
            assert(acc * 10 + d > u64::MAX) by (nonlinear_arith)
                requires
                    acc > (u64::MAX - d) / 10,
                    d <= 9,
            ;
            assert(!parses_as_u64(s@)) by {
                lemma_decimal_prefix_le(ds, i - start + 1);
            }
            return false;
        }
        assert(acc * 10 + d <= u64::MAX) by (nonlinear_arith)
            requires
                acc <= (u64::MAX - d) / 10,
                d <= 9,
        ;
        acc = acc * 10 + d;
        i = i + 1;
    }
    assert(ds.take(ds.len() as int) =~= ds);
    true
}


/// Whether the two byte sequences are equal.
pub fn bytes_eq(a: &[u8], b: &[u8]) -> (same: bool)
    ensures
        same == (a@ == b@),
{
    if a.len() != b.len() {
        return false;
    }
    let mut i: usize = 0;
    while i < a.len()
        invariant
            a.len() == b.len(),
            i <= a.len(),
            forall|k: int| 0 <= k < i ==> a@[k] == b@[k],
        decreases a.len() - i,
    {
        if a[i] != b[i] {
            return false;
        }
        i = i + 1;
    }
    assert(a@ =~= b@);
    true
}

/// The character of the decimal digit `d`.
pub open spec fn digit_char(d: nat) -> char {
    if d == 0 {
        '0'
    } else if d == 1 {
        '1'
    } else if d == 2 {
        '2'
    } else if d == 3 {
        '3'
    } else if d == 4 {
        '4'
    } else if d == 5 {
        '5'
    } else if d == 6 {
        '6'
    } else if d == 7 {
        '7'
    } else if d == 8 {
        '8'
    } else {
        '9'
    }
}

/// The decimal text of `n`, without leading zeros.
pub open spec fn decimal_text(n: nat) -> Seq<char>
    decreases n,
{
    if n < 10 {
        seq![digit_char(n)]
    } else {
        decimal_text(n / 10).push(digit_char(n % 10))
    }
}

/// The one-character text of the digit `d`.
fn digit_str(d: u64) -> (s: &'static str)
    requires
        d < 10,
    ensures
        s@ == seq![digit_char(d as nat)],
{
    proof {
        reveal_strlit("0");
        reveal_strlit("1");
        reveal_strlit("2");
        reveal_strlit("3");
        reveal_strlit("4");
        reveal_strlit("5");
        reveal_strlit("6");
        reveal_strlit("7");
        reveal_strlit("8");
        reveal_strlit("9");
    }
    let s = if d == 0 {
        "0"
    } else if d == 1 {
        "1"
    } else if d == 2 {
        "2"
    } else if d == 3 {
        "3"
    } else if d == 4 {
        "4"
    } else if d == 5 {
        "5"
    } else if d == 6 {
        "6"
    } else if d == 7 {
        "7"
    } else if d == 8 {
        "8"
    } else {
        "9"
    };
    assert(s@ =~= seq![digit_char(d as nat)]);
    s
}

/// The decimal text of `n`, as `n.to_string()` writes it.
pub fn decimal_string(n: u64) -> (s: String)
    ensures
        s@ == decimal_text(n as nat),
    decreases n,
{
    if n < 10 {
        String::from_str(digit_str(n))
    } else {
        let mut s = decimal_string(n / 10);
        let ghost front = s@;
        s.append(digit_str(n % 10));
        assert(s@ =~= front.push(digit_char((n % 10) as nat)));
        s
    }
}


/// No piece holds the separator.
pub proof fn lemma_split_seq_pieces_lack_sep<T>(s: Seq<T>, sep: T)
    ensures
        forall|i: int| 0 <= i < split_seq(s, sep).len() ==> !(#[trigger] split_seq(s, sep)[i]).contains(sep),
    decreases s.len(),
{
    if s.len() > 0 {
        let front = split_seq(s.drop_last(), sep);
        lemma_split_seq_pieces_lack_sep(s.drop_last(), sep);
        lemma_split_seq_nonempty(s.drop_last(), sep);
        let r = split_seq(s, sep);
        assert forall|i: int| 0 <= i < r.len() implies !(#[trigger] r[i]).contains(sep) by {
            if s.last() == sep {
                if i < front.len() {
                    assert(r[i] == front[i]);
                } else {
                    assert(r[i] =~= Seq::<T>::empty());
                }
            } else {
                if i < front.len() - 1 {
                    assert(r[i] == front[i]);
                } else {
                    let p = front.last().push(s.last());
                    assert(r[i] == p);
                    if p.contains(sep) {
                        let k = choose|k: int| 0 <= k < p.len() && p[k] == sep;
                        if k < p.len() - 1 {
                            assert(front[front.len() - 1][k] == sep);
                        }
                    }
                }
            }
        }
    }
}

/// The text `String::from_utf8_lossy` makes of the bytes.
pub uninterp spec fn utf8_lossy(bytes: Seq<u8>) -> Seq<char>;

/// Calls `String::from_utf8_lossy` and takes the owned text. Its documentation
/// says that bytes that are valid UTF-8 come back as the text they encode; any
/// other input has each invalid sequence replaced by U+FFFD, which is left
/// unstated here beyond the name `utf8_lossy`.
#[verifier::external_body]
pub(crate) fn decode_lossy(bytes: &[u8]) -> (s: String)
    ensures
        s@ == utf8_lossy(bytes@),
        vstd::utf8::valid_utf8(bytes@) ==> s@ == vstd::utf8::decode_utf8(bytes@),
{
    String::from_utf8_lossy(bytes).into_owned()
}


/// The decimal text of any `u64` reads back as that number: it parses as a
/// `u64` and its value is the number.
pub proof fn law_decimal_text_parses(n: nat)
    requires
        n <= u64::MAX,
    ensures
        parses_as_u64(decimal_text(n)),
        decimal_value(decimal_text(n)) == n,
{
    lemma_decimal_text_digits(n);
    assert(decimal_text(n)[0] != '+');
    assert(unsigned_digits(decimal_text(n)) == decimal_text(n));
}

proof fn lemma_digit_char_value(d: nat)
    requires
        d < 10,
    ensures
        digit_value(digit_char(d)) == d,
{
    assert('0' as nat == 48);
    assert('9' as nat == 57);
}

proof fn lemma_decimal_text_digits(n: nat)
    ensures
        decimal_text(n).len() > 0,
        forall|i: int| 0 <= i < decimal_text(n).len() ==> is_digit(#[trigger] decimal_text(n)[i]),
        decimal_value(decimal_text(n)) == n,
    decreases n,
{
    if n < 10 {
        lemma_digit_char_value(n);
        let s = decimal_text(n);
        assert(s.drop_last() =~= Seq::<char>::empty());
        assert(decimal_value(Seq::<char>::empty()) == 0);
        assert(s.last() == digit_char(n));
        assert(decimal_value(s) == decimal_value(s.drop_last()) * 10 + digit_value(s.last()));
    } else {
        lemma_digit_char_value(n % 10);
        lemma_decimal_text_digits(n / 10);
        let front = decimal_text(n / 10);
        let s = decimal_text(n);
        assert(s.drop_last() =~= front);
        assert(s.last() == digit_char(n % 10));
        assert(decimal_value(s) == decimal_value(front) * 10 + digit_value(s.last()));
        assert(n == (n / 10) * 10 + n % 10);
        assert forall|i: int| 0 <= i < s.len() implies is_digit(#[trigger] s[i]) by {
            if i < front.len() {
                assert(s[i] == front[i]);
            }
        }
    }
}

} // verus!
