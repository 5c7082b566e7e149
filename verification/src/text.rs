use vstd::prelude::*;
use vstd::std_specs::iter::IteratorSpec;

verus! {

broadcast use vstd::string::group_string_axioms;

/// `String::push`: the character is added at the end.
#[verifier::external_body]
pub(crate) fn push_char(s: &mut String, c: char)
    ensures
        final(s)@ == old(s)@.push(c),
{
    s.push(c)
}

/// The characters of `s`, in order.
pub fn chars_of(s: &str) -> (v: Vec<char>)
    ensures
        v@ == s@,
{
    let mut it = s.chars();
    let mut v: Vec<char> = Vec::new();
    loop
        invariant
            it.obeys_prophetic_iter_laws(),
            it.decrease() is Some,
            v@ + it.remaining() == s@,
        decreases it.decrease()->0,
    {
        match it.next() {
            Some(c) => {
                v.push(c);
                assert(v@ + it.remaining() =~= s@);
            },
            None => {
                assert(v@ =~= s@);
                return v;
            },
        }
    }
}

/// The string whose characters are `v`.
pub fn string_of(v: &Vec<char>) -> (s: String)
    ensures
        s@ == v@,
{
    let mut s = String::new();
    let mut i: usize = 0;
    while i < v.len()
        invariant
            i <= v.len(),
            s@ == v@.subrange(0, i as int),
        decreases v.len() - i,
    {
        push_char(&mut s, v[i]);
        i += 1;
        assert(s@ =~= v@.subrange(0, i as int));
    }
    assert(s@ =~= v@);
    s
}

/// The characters of `chars` from `from` up to `to`.
pub(crate) fn copy_range(chars: &Vec<char>, from: usize, to: usize) -> (part: Vec<char>)
    requires
        from <= to <= chars@.len(),
    ensures
        part@ == chars@.subrange(from as int, to as int),
{
    let mut part: Vec<char> = Vec::new();
    let mut i: usize = from;
    while i < to
        invariant
            from <= i <= to <= chars@.len(),
            part@ == chars@.subrange(from as int, i as int),
        decreases to - i,
    {
        part.push(chars[i]);
        i += 1;
        assert(part@ =~= chars@.subrange(from as int, i as int));
    }
    part
}

/// The first place from `from` on where `c` stands; the length of `s` where it
/// stands nowhere.
pub open spec fn index_of(s: Seq<char>, c: char, from: int) -> int
    decreases s.len() - from,
{
    if from < 0 || from >= s.len() {
        s.len() as int
    } else if s[from] == c {
        from
    } else {
        index_of(s, c, from + 1)
    }
}

/// The first place from `from` on where `c` stands in `s`; the length of `s`
/// where it stands nowhere.
pub(crate) fn find_char(s: &Vec<char>, c: char, from: usize) -> (at: usize)
    requires
        from <= s@.len(),
    ensures
        at == index_of(s@, c, from as int),
        from <= at <= s@.len(),
        at < s@.len() ==> s@[at as int] == c,
{
    let mut k: usize = from;
    while k < s.len()
        invariant
            from <= k <= s@.len(),
            index_of(s@, c, from as int) == index_of(s@, c, k as int),
        decreases s@.len() - k,
    {
        if s[k] == c {
            return k;
        }
        k += 1;
    }
    k
}

/// The character that stands for a digit below ten.
pub open spec fn digit_char(d: int) -> char {
    (48 + d) as u8 as char
}

/// The decimal digits of `n`, without leading zeros.
pub open spec fn decimal(n: nat) -> Seq<char>
    decreases n,
{
    if n < 10 {
        seq![digit_char(n as int)]
    } else {
        decimal(n / 10).push(digit_char((n % 10) as int))
    }
}

/// Appends the decimal digits of `n` to `out`.
pub fn push_decimal(out: &mut String, n: u64)
    ensures
        final(out)@ == old(out)@ + decimal(n as nat),
    decreases n,
{
    if n >= 10 {
        push_decimal(out, n / 10);
    }
    let d: u8 = (n % 10) as u8;
    push_char(out, (48 + d) as char);
    assert(out@ =~= old(out)@ + decimal(n as nat));
}

/// The decimal digits of `n` as a string.
pub fn decimal_string(n: u64) -> (s: String)
    ensures
        s@ == decimal(n as nat),
{
    let mut s = String::new();
    push_decimal(&mut s, n);
    assert(s@ =~= decimal(n as nat));
    s
}

/// The views of a run of strings.
pub open spec fn views(lines: Seq<String>) -> Seq<Seq<char>> {
    lines.map_values(|s: String| s@)
}

/// The parts in order, with `sep` between each two of them.
pub open spec fn join(parts: Seq<Seq<char>>, sep: Seq<char>) -> Seq<char>
    decreases parts.len(),
{
    if parts.len() == 0 {
        Seq::empty()
    } else if parts.len() == 1 {
        parts[0]
    } else {
        join(parts.drop_last(), sep) + sep + parts.last()
    }
}

/// The strings of `lines` in order, with `sep` between each two of them.
pub fn join_strings(lines: &Vec<String>, sep: &str) -> (s: String)
    ensures
        s@ == join(views(lines@), sep@),
{
    let mut s = String::new();
    let mut i: usize = 0;
    while i < lines.len()
        invariant
            i <= lines@.len(),
            s@ == join(views(lines@).subrange(0, i as int), sep@),
        decreases lines@.len() - i,
    {
        let ghost head = views(lines@).subrange(0, i as int);
        let ghost next = views(lines@).subrange(0, i as int + 1);
        assert(next.drop_last() =~= head);
        assert(next.last() == lines@[i as int]@);
        if i > 0 {
            s.append(sep);
        }
        s.append(lines[i].as_str());
        assert(s@ =~= join(next, sep@));
        i += 1;
    }
    assert(views(lines@).subrange(0, i as int) =~= views(lines@));
    s
}

/// Where part `k` begins in the joined text.
pub open spec fn part_offset(parts: Seq<Seq<char>>, sep: Seq<char>, k: int) -> int
    decreases k,
{
    if k <= 0 {
        0
    } else {
        part_offset(parts, sep, k - 1) + parts[k - 1].len() + sep.len()
    }
}

proof fn lemma_offset_of_prefix(parts: Seq<Seq<char>>, sep: Seq<char>, k: int)
    requires
        0 <= k < parts.len(),
    ensures
        part_offset(parts.drop_last(), sep, k) == part_offset(parts, sep, k),
    decreases k,
{
    if k > 0 {
        lemma_offset_of_prefix(parts, sep, k - 1);
    }
}

/// The joined text is as long as its parts and the separators between them.
pub proof fn join_length(parts: Seq<Seq<char>>, sep: Seq<char>)
    requires
        parts.len() > 0,
    ensures
        join(parts, sep).len() == part_offset(parts, sep, parts.len() - 1) + parts.last().len(),
    decreases parts.len(),
{
    if parts.len() > 1 {
        join_length(parts.drop_last(), sep);
        lemma_offset_of_prefix(parts, sep, parts.len() - 2);
    }
}

/// In the joined text each part stands unchanged in its place, and between
/// each two parts stands the same separator, unchanged too.
pub proof fn join_layout(parts: Seq<Seq<char>>, sep: Seq<char>, k: int)
    requires
        0 <= k < parts.len(),
    ensures
        0 <= part_offset(parts, sep, k),
        part_offset(parts, sep, k) + parts[k].len() <= join(parts, sep).len(),
        join(parts, sep).subrange(
            part_offset(parts, sep, k),
            part_offset(parts, sep, k) + parts[k].len(),
        ) == parts[k],
        k + 1 < parts.len() ==> {
            &&& part_offset(parts, sep, k + 1) <= join(parts, sep).len()
            &&& join(parts, sep).subrange(
                part_offset(parts, sep, k) + parts[k].len(),
                part_offset(parts, sep, k + 1),
            ) == sep
        },
    decreases parts.len(),
{
    let n = parts.len() as int;
    let whole = join(parts, sep);
    let at = part_offset(parts, sep, k);
    lemma_offset_not_negative(parts, sep, k);
    join_length(parts, sep);
    if n == 1 {
        assert(whole.subrange(at, at + parts[k].len()) =~= parts[k]);
    } else {
        let head = parts.drop_last();
        let before = join(head, sep);
        join_length(head, sep);
        lemma_offset_of_prefix(parts, sep, n - 2);
        assert(whole == before + sep + parts.last());
        if k == n - 1 {
            assert(at == before.len() + sep.len());
            assert(whole.subrange(at, at + parts[k].len()) =~= parts[k]);
        } else {
            join_layout(head, sep, k);
            lemma_offset_of_prefix(parts, sep, k);
            assert(head[k] == parts[k]);
            assert(whole.subrange(at, at + parts[k].len()) =~= before.subrange(
                at,
                at + parts[k].len(),
            ));
            if k + 1 < n - 1 {
                lemma_offset_of_prefix(parts, sep, k + 1);
                assert(whole.subrange(at + parts[k].len(), part_offset(parts, sep, k + 1))
                    =~= before.subrange(at + parts[k].len(), part_offset(head, sep, k + 1)));
            } else {
                assert(at + parts[k].len() == before.len());
                assert(whole.subrange(at + parts[k].len(), part_offset(parts, sep, k + 1))
                    =~= sep);
            }
        }
    }
}

proof fn lemma_offset_not_negative(parts: Seq<Seq<char>>, sep: Seq<char>, k: int)
    ensures
        0 <= part_offset(parts, sep, k),
    decreases k,
{
    if k > 0 {
        lemma_offset_not_negative(parts, sep, k - 1);
    }
}

} // verus!
