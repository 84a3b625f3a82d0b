//! Character-level text utilities: UTF-8 byte widths, byte-bounded prefixes,
//! decimal rendering of integers and joining of strings.
use vstd::prelude::*;

verus! {

/// Number of bytes that UTF-8 uses to encode `c`.
pub open spec fn utf8_width(c: char) -> nat {
    if (c as u32) < 0x80 {
        1
    } else if (c as u32) < 0x800 {
        2
    } else if (c as u32) < 0x10000 {
        3
    } else {
        4
    }
}

/// Length in bytes of the UTF-8 encoding of `s` (what `str::len` returns).
pub open spec fn byte_len(s: Seq<char>) -> nat
    decreases s.len(),
{
    if s.len() == 0 {
        0
    } else {
        utf8_width(s[0]) + byte_len(s.drop_first())
    }
}

/// Law: `byte_len` is the length of the UTF-8 encoding that vstd gives `str::len`.
pub proof fn lemma_byte_len_is_utf8_len(s: Seq<char>)
    ensures
        byte_len(s) == vstd::utf8::encode_utf8(s).len(),
    decreases s.len(),
{
    if s.len() > 0 {
        vstd::utf8::char_is_scalar(s[0]);
        lemma_byte_len_is_utf8_len(s.drop_first());
    }
}

/// Prepends `a` to an optional sequence.
pub open spec fn prepend(a: Seq<char>, o: Option<Seq<char>>) -> Option<Seq<char>> {
    match o {
        Some(p) => Some(a + p),
        None => None,
    }
}

/// The characters that make up the first `k` bytes of `s`, or `None` when byte `k`
/// falls inside a character or past the end (what `str::get(..k)` returns).
pub open spec fn byte_prefix(s: Seq<char>, k: nat) -> Option<Seq<char>>
    decreases s.len(),
{
    if k == 0 {
        Some(Seq::empty())
    } else if s.len() == 0 {
        None
    } else if utf8_width(s[0]) > k {
        None
    } else {
        prepend(seq![s[0]], byte_prefix(s.drop_first(), (k - utf8_width(s[0])) as nat))
    }
}

/// The byte length of a concatenation is the sum of the byte lengths.
pub proof fn lemma_byte_len_append(a: Seq<char>, b: Seq<char>)
    ensures
        byte_len(a + b) == byte_len(a) + byte_len(b),
    decreases a.len(),
{
    if a.len() == 0 {
        assert(a + b =~= b);
    } else {
        lemma_byte_len_append(a.drop_first(), b);
        assert((a + b).drop_first() =~= a.drop_first() + b);
    }
}

/// A single character takes `utf8_width` bytes.
pub proof fn lemma_byte_len_single(c: char)
    ensures
        byte_len(seq![c]) == utf8_width(c),
{
    assert(seq![c].drop_first() =~= Seq::<char>::empty());
    assert(byte_len(Seq::<char>::empty()) == 0);
    assert(byte_len(seq![c]) == utf8_width(c) + byte_len(seq![c].drop_first()));
}

/// A prefix never takes more bytes than the whole sequence.
pub proof fn lemma_byte_len_take(s: Seq<char>, i: int)
    requires
        0 <= i <= s.len(),
    ensures
        byte_len(s.take(i)) <= byte_len(s),
{
    lemma_byte_len_append(s.take(i), s.skip(i));
    assert(s.take(i) + s.skip(i) =~= s);
}

/// Law: a byte prefix, when it exists, is a prefix of `s` that takes exactly `k` bytes.
pub proof fn lemma_byte_prefix_sound(s: Seq<char>, k: nat)
    requires
        byte_prefix(s, k) is Some,
    ensures
        byte_prefix(s, k)->0.len() <= s.len(),
        byte_prefix(s, k)->0 =~= s.take(byte_prefix(s, k)->0.len() as int),
        byte_len(byte_prefix(s, k)->0) == k,
    decreases s.len(),
{
    if k == 0 {
        assert(byte_len(Seq::<char>::empty()) == 0);
    } else {
        let w = utf8_width(s[0]);
        let rest = (k - w) as nat;
        lemma_byte_prefix_sound(s.drop_first(), rest);
        let p = byte_prefix(s.drop_first(), rest)->0;
        lemma_byte_len_append(seq![s[0]], p);
        lemma_byte_len_single(s[0]);
        assert(s.take(p.len() as int + 1) =~= seq![s[0]] + s.drop_first().take(p.len() as int));
    }
}

/// Executable counterpart of `utf8_width`.
pub fn char_width(c: char) -> (w: usize)
    ensures
        w == utf8_width(c),
{
    let v = c as u32;
    if v < 0x80 {
        1
    } else if v < 0x800 {
        2
    } else if v < 0x10000 {
        3
    } else {
        4
    }
}

/// Whether the UTF-8 encoding of `s` is longer than `n` bytes (`s.len() > n`).
pub fn byte_len_exceeds(s: &str, n: usize) -> (res: bool)
    ensures
        res == (byte_len(s@) > n),
{
    let len = s.unicode_len();
    let mut i: usize = 0;
    let mut acc: usize = 0;
    while i < len
        invariant
            i <= len,
            len == s@.len(),
            acc == byte_len(s@.take(i as int)),
            acc <= n,
        decreases len - i,
    {
        let c = s.get_char(i);
        let w = char_width(c);
        proof {
            assert(s@.take(i + 1) =~= s@.take(i as int) + seq![c]);
            lemma_byte_len_append(s@.take(i as int), seq![c]);
            lemma_byte_len_single(c);
        }
        if w > n - acc {
            proof {
                lemma_byte_len_take(s@, i + 1);
            }
            return true;
        }
        acc = acc + w;
        i = i + 1;
    }
    assert(s@.take(len as int) =~= s@);
    false
}

/// Number of leading characters of `s` that fill exactly its first `k` bytes,
/// or `None` when no character boundary lies at byte `k`.
pub fn byte_prefix_chars(s: &str, k: usize) -> (res: Option<usize>)
    requires
        k <= usize::MAX - 4,
    ensures
        match res {
            Some(n) => n <= s@.len() && byte_prefix(s@, k as nat) == Some(s@.take(n as int)),
            None => byte_prefix(s@, k as nat) is None,
        },
{
    let len = s.unicode_len();
    let mut i: usize = 0;
    let mut acc: usize = 0;
    assert(s@.take(0) =~= Seq::<char>::empty());
    assert(s@.skip(0) =~= s@);
    while acc < k && i < len
        invariant
            i <= len,
            len == s@.len(),
            acc <= k <= usize::MAX - 4,
            byte_prefix(s@, k as nat) == prepend(
                s@.take(i as int),
                byte_prefix(s@.skip(i as int), (k - acc) as nat),
            ),
        decreases len - i,
    {
        let c = s.get_char(i);
        let w = char_width(c);
        assert(s@.skip(i as int)[0] == c);
        if w > k - acc {
            return None;
        }
        proof {
            let tail = s@.skip(i as int);
            assert(tail.drop_first() =~= s@.skip(i + 1));
            assert(s@.take(i + 1) =~= s@.take(i as int) + seq![c]);
            let r = byte_prefix(s@.skip(i + 1), (k - acc - w) as nat);
            match r {
                Some(p) => {
                    assert(s@.take(i as int) + (seq![c] + p) =~= s@.take(i + 1) + p);
                },
                None => {},
            }
        }
        acc = acc + w;
        i = i + 1;
    }
    if acc == k {
        assert(s@.take(i as int) + Seq::<char>::empty() =~= s@.take(i as int));
        Some(i)
    } else {
        assert(s@.skip(i as int).len() == 0);
        None
    }
}

/// The decimal digit character for `d` (meaningful for `d < 10`).
pub open spec fn digit_char(d: nat) -> char {
    if d == 0 {
        '0'
    } else if d == 1 {
        '1'
    } else if d == 2 {
        '2'
    } else if d == 3 {
        '3'
    } else if d == 4 {
        '4'
    } else if d == 5 {
        '5'
    } else if d == 6 {
        '6'
    } else if d == 7 {
        '7'
    } else if d == 8 {
        '8'
    } else {
        '9'
    }
}

/// The value of a decimal digit character.
pub open spec fn digit_value(c: char) -> nat {
    if c == '1' {
        1
    } else if c == '2' {
        2
    } else if c == '3' {
        3
    } else if c == '4' {
        4
    } else if c == '5' {
        5
    } else if c == '6' {
        6
    } else if c == '7' {
        7
    } else if c == '8' {
        8
    } else if c == '9' {
        9
    } else {
        0
    }
}

/// The decimal representation of `n`, without leading zeros (what `n.to_string()` gives).
pub open spec fn decimal(n: nat) -> Seq<char>
    decreases n,
{
    if n < 10 {
        seq![digit_char(n)]
    } else {
        decimal(n / 10).push(digit_char(n % 10))
    }
}

/// The number that a sequence of decimal digits denotes.
pub open spec fn digits_value(s: Seq<char>) -> nat
    decreases s.len(),
{
    if s.len() == 0 {
        0
    } else {
        digits_value(s.drop_last()) * 10 + digit_value(s.last())
    }
}

/// Law: reading back the decimal representation of `n` gives `n`.
pub proof fn lemma_decimal_roundtrip(n: nat)
    ensures
        digits_value(decimal(n)) == n,
        decimal(n).len() > 0,
    decreases n,
{
    if n < 10 {
        let s = seq![digit_char(n)];
        assert(s.drop_last() =~= Seq::<char>::empty());
        assert(digits_value(Seq::<char>::empty()) == 0);
    } else {
        lemma_decimal_roundtrip(n / 10);
        let s = decimal(n / 10).push(digit_char(n % 10));
        assert(s.drop_last() =~= decimal(n / 10));
        assert(s.last() == digit_char(n % 10));
        assert(n == (n / 10) * 10 + n % 10);
    }
}

/// The one-character string literal for digit `d`.
fn digit_str(d: u64) -> (s: &'static str)
    requires
        d < 10,
    ensures
        s@ == seq![digit_char(d as nat)],
{
    if d == 0 {
        proof { reveal_strlit("0"); }
        "0"
    } else if d == 1 {
        proof { reveal_strlit("1"); }
        "1"
    } else if d == 2 {
        proof { reveal_strlit("2"); }
        "2"
    } else if d == 3 {
        proof { reveal_strlit("3"); }
        "3"
    } else if d == 4 {
        proof { reveal_strlit("4"); }
        "4"
    } else if d == 5 {
        proof { reveal_strlit("5"); }
        "5"
    } else if d == 6 {
        proof { reveal_strlit("6"); }
        "6"
    } else if d == 7 {
        proof { reveal_strlit("7"); }
        "7"
    } else if d == 8 {
        proof { reveal_strlit("8"); }
        "8"
    } else {
        proof { reveal_strlit("9"); }
        "9"
    }
}

/// Appends the decimal representation of `n` to `out`.
pub fn push_decimal(out: &mut String, n: u64)
    ensures
        final(out)@ == old(out)@ + decimal(n as nat),
    decreases n,
{
    if n >= 10 {
        push_decimal(out, n / 10);
    }
    out.append(digit_str(n % 10));
    proof {
        if n >= 10 {
            assert(old(out)@ + decimal(n as nat) =~= old(out)@ + decimal((n / 10) as nat) + seq![
                digit_char((n % 10) as nat),
            ]);
        } else {
            assert(decimal(n as nat) == seq![digit_char((n % 10) as nat)]);
        }
    }
}

/// The decimal representation of `n` as a new string.
pub fn u64_to_decimal(n: u64) -> (res: String)
    ensures
        res@ == decimal(n as nat),
{
    let mut out = String::new();
    push_decimal(&mut out, n);
    assert(Seq::<char>::empty() + decimal(n as nat) =~= decimal(n as nat));
    out
}

/// `list[0] + sep + list[1] + sep + ... + list[n - 1]` (what `slice::join` gives).
pub open spec fn join(list: Seq<Seq<char>>, sep: Seq<char>) -> Seq<char>
    decreases list.len(),
{
    if list.len() == 0 {
        Seq::empty()
    } else if list.len() == 1 {
        list[0]
    } else {
        join(list.drop_last(), sep) + sep + list.last()
    }
}

/// Every character of `s` is ASCII.
pub open spec fn all_ascii(s: Seq<char>) -> bool {
    forall|i: int| 0 <= i < s.len() ==> (s[i] as u32) < 0x80
}

/// An ASCII text takes one byte per character.
pub proof fn lemma_ascii_byte_len(s: Seq<char>)
    requires
        all_ascii(s),
    ensures
        byte_len(s) == s.len(),
    decreases s.len(),
{
    if s.len() > 0 {
        let t = s.drop_first();
        assert forall|i: int| 0 <= i < t.len() implies (t[i] as u32) < 0x80 by {
            assert(t[i] == s[i + 1]);
        }
        lemma_ascii_byte_len(t);
    }
}

/// In an ASCII text the first `k` bytes are the first `k` characters.
pub proof fn lemma_ascii_byte_prefix(s: Seq<char>, k: nat)
    requires
        all_ascii(s),
        k <= s.len(),
    ensures
        byte_prefix(s, k) == Some(s.take(k as int)),
    decreases s.len(),
{
    if k == 0 {
        assert(s.take(0) =~= Seq::<char>::empty());
    } else {
        let t = s.drop_first();
        assert forall|i: int| 0 <= i < t.len() implies (t[i] as u32) < 0x80 by {
            assert(t[i] == s[i + 1]);
        }
        assert((s[0] as u32) < 0x80);
        lemma_ascii_byte_prefix(t, (k - 1) as nat);
        assert(seq![s[0]] + t.take(k - 1) =~= s.take(k as int));
    }
}

/// A text takes at least one byte per character.
pub proof fn lemma_byte_len_ge_len(s: Seq<char>)
    ensures
        byte_len(s) >= s.len(),
    decreases s.len(),
{
    if s.len() > 0 {
        lemma_byte_len_ge_len(s.drop_first());
    }
}

/// The total length of the parts `l[0..i]`, each followed by a separator of
/// length `sep_len`: where part `i` starts in `join(l, sep)`.
pub open spec fn part_offset(l: Seq<Seq<char>>, sep_len: nat, i: int) -> int
    decreases i,
{
    if i <= 0 {
        0
    } else {
        part_offset(l, sep_len, i - 1) + l[i - 1].len() + sep_len
    }
}

/// Law: in `join(l, sep)` part `i` starts at `part_offset(l, |sep|, i)`, every
/// separator stands between two parts, and the whole is as long as all parts and
/// `l.len() - 1` separators.
pub proof fn lemma_join_layout(l: Seq<Seq<char>>, sep: Seq<char>)
    ensures
        l.len() == 0 ==> join(l, sep).len() == 0,
        l.len() > 0 ==> join(l, sep).len() == part_offset(l, sep.len(), l.len() - 1) + l.last().len(),
        forall|i: int|
            0 <= i < l.len() ==> join(l, sep).subrange(
                part_offset(l, sep.len(), i),
                part_offset(l, sep.len(), i) + l[i].len(),
            ) =~= l[i],
        forall|i: int|
            0 <= i < l.len() - 1 ==> join(l, sep).subrange(
                part_offset(l, sep.len(), i) + l[i].len(),
                part_offset(l, sep.len(), i + 1),
            ) =~= sep,
{
    if l.len() > 0 {
        lemma_join_len(l, sep);
    }
    assert forall|i: int| 0 <= i < l.len() implies join(l, sep).subrange(
        part_offset(l, sep.len(), i),
        part_offset(l, sep.len(), i) + l[i].len(),
    ) =~= l[i] by {
        lemma_join_part(l, sep, i);
    }
    assert forall|i: int| 0 <= i < l.len() - 1 implies join(l, sep).subrange(
        part_offset(l, sep.len(), i) + l[i].len(),
        part_offset(l, sep.len(), i + 1),
    ) =~= sep by {
        lemma_join_sep(l, sep, i);
    }
}

/// The last offset of `l` extends that of `l.drop_last()` by its last part and a
/// separator.
proof fn lemma_part_offset_last(l: Seq<Seq<char>>, sep_len: nat)
    requires
        l.len() >= 2,
    ensures
        part_offset(l, sep_len, l.len() - 1) == part_offset(l.drop_last(), sep_len, l.len() - 2)
            + l[l.len() - 2].len() + sep_len,
        forall|i: int| 0 <= i <= l.len() - 1 ==> part_offset(l, sep_len, i) == part_offset(
            l.drop_last(),
            sep_len,
            i,
        ),
{
    let p = l.drop_last();
    assert forall|i: int| 0 <= i <= l.len() - 1 implies part_offset(l, sep_len, i) == part_offset(
        p,
        sep_len,
        i,
    ) by {
        lemma_part_offset_prefix(l, p, sep_len, i);
    }
}

/// The length of a join.
pub proof fn lemma_join_len(l: Seq<Seq<char>>, sep: Seq<char>)
    requires
        l.len() > 0,
    ensures
        join(l, sep).len() == part_offset(l, sep.len(), l.len() - 1) + l.last().len(),
    decreases l.len(),
{
    if l.len() >= 2 {
        let p = l.drop_last();
        lemma_join_len(p, sep);
        lemma_part_offset_last(l, sep.len());
    }
}

/// Where part `i` stands in a join.
pub proof fn lemma_join_part(l: Seq<Seq<char>>, sep: Seq<char>, i: int)
    requires
        0 <= i < l.len(),
    ensures
        0 <= part_offset(l, sep.len(), i),
        part_offset(l, sep.len(), i) + l[i].len() <= join(l, sep).len(),
        join(l, sep).subrange(part_offset(l, sep.len(), i), part_offset(l, sep.len(), i) + l[i].len())
            =~= l[i],
    decreases l.len(),
{
    let n = l.len() as int;
    if n == 1 {
        assert(join(l, sep).subrange(0, l[0].len() as int) =~= l[0]);
    } else {
        let p = l.drop_last();
        let jp = join(p, sep);
        lemma_join_len(p, sep);
        lemma_part_offset_last(l, sep.len());
        let j = join(l, sep);
        assert(j == jp + sep + l.last());
        lemma_part_offset_mono(l, sep.len(), 0, i);
        let a = part_offset(l, sep.len(), i);
        if i < n - 1 {
            lemma_join_part(p, sep, i);
            assert(a == part_offset(p, sep.len(), i));
            if i < n - 2 {
                lemma_part_offset_mono(p, sep.len(), i + 1, n - 2);
                assert(part_offset(p, sep.len(), i + 1) == part_offset(p, sep.len(), i) + p[i].len()
                    + sep.len());
            }
            assert(p[i] == l[i]);
            assert(a + l[i].len() <= jp.len());
            assert(j.subrange(a, a + l[i].len()) =~= jp.subrange(a, a + l[i].len()));
        } else {
            assert(a == jp.len() + sep.len());
            assert(j.subrange(a, a + l[i].len()) =~= l.last());
        }
    }
}

/// Where the separator after part `i` stands in a join.
pub proof fn lemma_join_sep(l: Seq<Seq<char>>, sep: Seq<char>, i: int)
    requires
        0 <= i < l.len() - 1,
    ensures
        0 <= part_offset(l, sep.len(), i) + l[i].len(),
        part_offset(l, sep.len(), i) + l[i].len() <= part_offset(l, sep.len(), i + 1),
        part_offset(l, sep.len(), i + 1) <= join(l, sep).len(),
        join(l, sep).subrange(part_offset(l, sep.len(), i) + l[i].len(), part_offset(l, sep.len(), i + 1))
            =~= sep,
    decreases l.len(),
{
    let n = l.len() as int;
    let p = l.drop_last();
    let jp = join(p, sep);
    lemma_join_len(p, sep);
    lemma_part_offset_last(l, sep.len());
    let j = join(l, sep);
    assert(j == jp + sep + l.last());
    assert(p[i] == l[i]);
    lemma_part_offset_mono(l, sep.len(), 0, i);
    let a = part_offset(l, sep.len(), i) + l[i].len();
    let b = part_offset(l, sep.len(), i + 1);
    assert(b == a + sep.len());
    assert(part_offset(l, sep.len(), i) == part_offset(p, sep.len(), i));
    if i < n - 2 {
        lemma_join_sep(p, sep, i);
        assert(b == part_offset(p, sep.len(), i + 1));
        if i + 2 <= n - 2 {
            lemma_part_offset_mono(p, sep.len(), i + 2, n - 2);
            assert(part_offset(p, sep.len(), i + 2) == part_offset(p, sep.len(), i + 1)
                + p[i + 1].len() + sep.len());
        }
        assert(b <= jp.len());
        assert(j.subrange(a, b) =~= jp.subrange(a, b));
    } else {
        assert(a == jp.len());
        assert(j.subrange(a, b) =~= sep);
    }
}

/// Offsets of the first parts do not depend on the later parts.
proof fn lemma_part_offset_prefix(l: Seq<Seq<char>>, p: Seq<Seq<char>>, sep_len: nat, i: int)
    requires
        0 <= i <= p.len() <= l.len(),
        forall|k: int| 0 <= k < p.len() ==> p[k] == l[k],
    ensures
        part_offset(l, sep_len, i) == part_offset(p, sep_len, i),
    decreases i,
{
    if i > 0 {
        lemma_part_offset_prefix(l, p, sep_len, i - 1);
    }
}

/// Offsets rise with the index.
proof fn lemma_part_offset_mono(l: Seq<Seq<char>>, sep_len: nat, i: int, k: int)
    requires
        0 <= i <= k,
    ensures
        part_offset(l, sep_len, i) <= part_offset(l, sep_len, k),
    decreases k - i,
{
    if i < k {
        lemma_part_offset_mono(l, sep_len, i, k - 1);
    }
}

/// Joins the strings of `list`, with `sep` between each two of them.
pub fn join_strings(list: &Vec<String>, sep: &str) -> (res: String)
    ensures
        res@ == join(list.deep_view(), sep@),
{
    let ghost parts = list.deep_view();
    let mut out = String::new();
    let n = list.len();
    let mut i: usize = 0;
    while i < n
        invariant
            i <= n,
            n == list@.len(),
            parts == list.deep_view(),
            out@ == join(parts.take(i as int), sep@),
        decreases n - i,
    {
        proof {
            assert(parts.take(i + 1).drop_last() =~= parts.take(i as int));
            assert(parts.take(i + 1).last() == list@[i as int]@);
        }
        if i > 0 {
            out.append(sep);
        } else {
            assert(parts.take(0) =~= Seq::<Seq<char>>::empty());
            assert(Seq::<char>::empty() + list@[0]@ =~= list@[0]@);
        }
        out.append(list[i].as_str());
        i = i + 1;
    }
    assert(parts.take(n as int) =~= parts);
    out
}

} // verus!
