//! Text handling over sequences of characters.
//!
//! The specification functions describe a text by its characters; the executable functions beside
//! them compute the same thing on `str` and `String`.
use vstd::prelude::*;

verus! {

// ── Trusted: std string primitives ──────────────────────

/// `String::push`: appends the given character to the end of the string. Believed without proof.
pub assume_specification[ String::push ](s: &mut String, c: char)
    ensures
        final(s)@ == old(s)@.push(c),
;

/// `std::str::from_utf8`: succeeds exactly on valid UTF-8, and then borrows the same bytes as text.
/// Believed without proof: when it succeeds, and which characters the text holds.
#[verifier::external_body]
pub(crate) fn utf8_text(bytes: &[u8]) -> (res: Option<&str>)
    ensures
        res is Some <==> vstd::utf8::valid_utf8(bytes@),
        res matches Some(t) ==> t@ == vstd::utf8::decode_utf8(bytes@),
{
    std::str::from_utf8(bytes).ok()
}

// ── Characters ──────────────────────────────────────────

/// The characters of a text, as a vector.
pub fn to_chars(s: &str) -> (v: Vec<char>)
    ensures
        v@ == s@,
{
    let mut v: Vec<char> = Vec::new();
    for c in it: s.chars()
        invariant
            v@ == it.seq().take(it.index()),
            it.seq() == s@,
    {
        v.push(c);
    }
    v
}

/// The text made of the characters from position `from` up to, not including, `to`.
pub fn text_of(chars: &Vec<char>, from: usize, to: usize) -> (s: String)
    requires
        from <= to <= chars@.len(),
    ensures
        s@ == chars@.subrange(from as int, to as int),
{
    let mut s = String::new();
    let mut i: usize = from;
    while i < to
        invariant
            from <= i <= to <= chars@.len(),
            s@ == chars@.subrange(from as int, i as int),
        decreases to - i,
    {
        s.push(chars[i]);
        i += 1;
    }
    s
}

/// Whether two texts hold the same characters.
pub fn same_text(a: &str, b: &str) -> (res: bool)
    ensures
        res == (a@ == b@),
{
    let x = to_chars(a);
    let y = to_chars(b);
    if x.len() != y.len() {
        return false;
    }
    let mut i: usize = 0;
    while i < x.len()
        invariant
            i <= x@.len(),
            x@.len() == y@.len(),
            x@ == a@,
            y@ == b@,
            forall|k: int| 0 <= k < i ==> x@[k] == y@[k],
        decreases x@.len() - i,
    {
        if x[i] != y[i] {
            return false;
        }
        i += 1;
    }
    assert(a@ =~= b@);
    true
}

/// Appends `t` to `v`; the deep view grows by the deep view of `t`.
pub fn push_viewed<T: DeepView>(v: &mut Vec<T>, t: T)
    ensures
        final(v).deep_view() == old(v).deep_view().push(t.deep_view()),
        final(v)@ == old(v)@.push(t),
{
    v.push(t);
}

/// A result with its value and its message taken by their views.
pub open spec fn outcome<T: DeepView>(r: Result<T, String>) -> Result<T::V, Seq<char>> {
    match r {
        Ok(t) => Ok(t.deep_view()),
        Err(e) => Err(e@),
    }
}

/// A result that carries no value, with its message taken by its view.
pub open spec fn report(r: Result<(), String>) -> Result<(), Seq<char>> {
    match r {
        Ok(()) => Ok(()),
        Err(e) => Err(e@),
    }
}

/// Two texts, one after the other.
pub fn concat_text(a: &str, b: &str) -> (res: String)
    ensures
        res@ == a@ + b@,
{
    let mut res = a.to_string();
    res.append(b);
    res
}

// ── Numbers ─────────────────────────────────────────────

/// The decimal digit `d`.
pub open spec fn digit(d: int) -> char {
    ('0' as int + d) as char
}

/// A natural number in decimal, without leading zeros.
pub open spec fn digits(n: nat) -> Seq<char>
    decreases n,
{
    if n < 10 {
        seq![digit(n as int)]
    } else {
        digits(n / 10).push(digit((n % 10) as int))
    }
}

/// An integer in decimal, with a leading minus sign when it is negative.
pub open spec fn decimal(i: int) -> Seq<char> {
    if i < 0 {
        seq!['-'] + digits((-i) as nat)
    } else {
        digits(i as nat)
    }
}

/// Appends a natural number in decimal.
pub fn push_digits(s: &mut String, n: u64)
    ensures
        final(s)@ == old(s)@ + digits(n as nat),
    decreases n,
{
    if n >= 10 {
        push_digits(s, n / 10);
    }
    let d: u8 = (n % 10) as u8;
    s.push((48u8 + d) as char);
}

/// Appends an integer in decimal.
pub fn push_decimal(s: &mut String, i: i64)
    requires
        i > i64::MIN,
    ensures
        final(s)@ == old(s)@ + decimal(i as int),
{
    if i < 0 {
        s.push('-');
        push_digits(s, (0 - i) as u64);
    } else {
        push_digits(s, i as u64);
    }
}

// ── Searching ───────────────────────────────────────────

/// `part` stands in `s` at position `i`.
pub open spec fn occurs_at(s: Seq<char>, part: Seq<char>, i: int) -> bool {
    0 <= i && i + part.len() <= s.len() && s.subrange(i, i + part.len()) == part
}

/// `part` stands somewhere in `s`.
pub open spec fn has_text(s: Seq<char>, part: Seq<char>) -> bool {
    exists|i: int| occurs_at(s, part, i)
}

/// The first position from `i` on at which `part` stands in `s`.
pub open spec fn find_from(s: Seq<char>, part: Seq<char>, i: int) -> Option<int>
    decreases s.len() + 1 - i,
{
    if i < 0 || i + part.len() > s.len() {
        None
    } else if occurs_at(s, part, i) {
        Some(i)
    } else {
        find_from(s, part, i + 1)
    }
}

/// The first position is where `part` stands and stands nowhere before.
pub proof fn lemma_find_first(s: Seq<char>, part: Seq<char>, i: int)
    ensures
        0 <= i ==> (find_from(s, part, i) is None <==> forall|k: int|
            i <= k ==> !occurs_at(s, part, k)),
        0 <= i ==> (find_from(s, part, i) matches Some(n) ==> i <= n && occurs_at(s, part, n)
            && forall|k: int| i <= k < n ==> !occurs_at(s, part, k)),
    decreases s.len() + 1 - i,
{
    if 0 <= i && i + part.len() <= s.len() && !occurs_at(s, part, i) {
        lemma_find_first(s, part, i + 1);
    }
}

fn occurs_here(s: &Vec<char>, part: &Vec<char>, i: usize) -> (res: bool)
    requires
        i + part@.len() <= s@.len(),
    ensures
        res == occurs_at(s@, part@, i as int),
{
    let size: usize = s.len();
    let mut k: usize = 0;
    while k < part.len()
        invariant
            size == s@.len(),
            k <= part@.len(),
            i + part@.len() <= s@.len(),
            forall|m: int| 0 <= m < k ==> s@[i + m] == part@[m],
        decreases part@.len() - k,
    {
        if s[i + k] != part[k] {
            assert(s@.subrange(i as int, i + part@.len())[k as int] != part@[k as int]);
            return false;
        }
        k += 1;
    }
    assert(s@.subrange(i as int, i + part@.len()) =~= part@);
    true
}

/// The first position at which `part` stands in `s`.
pub fn find_text(s: &Vec<char>, part: &Vec<char>) -> (res: Option<usize>)
    ensures
        match (res, find_from(s@, part@, 0)) {
            (Some(i), Some(n)) => i == n,
            (None, None) => true,
            _ => false,
        },
        res is None <==> !has_text(s@, part@),
{
    proof {
        lemma_find_first(s@, part@, 0);
    }
    if part.len() > s.len() {
        return None;
    }
    let last: usize = s.len() - part.len();
    let mut i: usize = 0;
    while i < last
        invariant
            last == s@.len() - part@.len(),
            i <= last,
            forall|k: int| 0 <= k < i ==> !occurs_at(s@, part@, k),
        decreases last - i,
    {
        if occurs_here(s, part, i) {
            proof {
                lemma_find_first(s@, part@, 0);
            }
            return Some(i);
        }
        i += 1;
    }
    if occurs_here(s, part, last) {
        Some(last)
    } else {
        None
    }
}

/// Whether `part` stands somewhere in `s`.
pub fn contains_text(s: &str, part: &str) -> (res: bool)
    ensures
        res == has_text(s@, part@),
{
    find_text(&to_chars(s), &to_chars(part)).is_some()
}

// ── Joining and splitting ───────────────────────────────

/// The parts in order, with `sep` between neighbours.
pub open spec fn join(parts: Seq<Seq<char>>, sep: Seq<char>) -> Seq<char>
    decreases parts.len(),
{
    if parts.len() == 0 {
        Seq::empty()
    } else if parts.len() == 1 {
        parts[0]
    } else {
        join(parts.drop_last(), sep) + sep + parts.last()
    }
}

/// Joins texts with a separator between neighbours.
pub fn join_text(parts: &Vec<String>, sep: &str) -> (res: String)
    ensures
        res@ == join(parts.deep_view(), sep@),
{
    let mut res = String::new();
    let mut i: usize = 0;
    assert(parts.deep_view().take(0) =~= Seq::empty());
    while i < parts.len()
        invariant
            i <= parts@.len(),
            res@ == join(parts.deep_view().take(i as int), sep@),
        decreases parts@.len() - i,
    {
        if i > 0 {
            res.append(sep);
        }
        res.append(parts[i].as_str());
        proof {
            let next = parts.deep_view().take(i + 1);
            assert(next.drop_last() =~= parts.deep_view().take(i as int));
            assert(next.last() == parts@[i as int]@);
        }
        i += 1;
    }
    assert(parts.deep_view().take(i as int) =~= parts.deep_view());
    res
}

/// The pieces of `s` between the occurrences of `sep`: always at least one, none holding `sep`.
pub open spec fn split(s: Seq<char>, sep: char) -> Seq<Seq<char>>
    decreases s.len(),
{
    if s.len() == 0 {
        seq![Seq::empty()]
    } else {
        let before = split(s.drop_last(), sep);
        if s.last() == sep {
            before.push(Seq::empty())
        } else {
            before.drop_last().push(before.last().push(s.last()))
        }
    }
}

/// Splits a text at every occurrence of `sep`.
pub fn split_text(s: &str, sep: char) -> (res: Vec<String>)
    ensures
        res.deep_view() == split(s@, sep),
        res@.len() >= 1,
{
    let chars = to_chars(s);
    let mut res: Vec<String> = Vec::new();
    let mut current = String::new();
    let mut i: usize = 0;
    assert(chars@.take(0) =~= Seq::empty());
    assert(res.deep_view().push(current@) =~= seq![Seq::<char>::empty()]);
    while i < chars.len()
        invariant
            i <= chars@.len(),
            chars@ == s@,
            res.deep_view().push(current@) == split(s@.take(i as int), sep),
        decreases chars@.len() - i,
    {
        let c = chars[i];
        proof {
            let next = s@.take(i + 1);
            assert(next.drop_last() =~= s@.take(i as int));
            assert(next.last() == c);
            let before = split(s@.take(i as int), sep);
            assert(before.last() == current@);
            assert(before.drop_last() =~= res.deep_view());
        }
        if c == sep {
            push_viewed(&mut res, current);
            current = String::new();
        } else {
            current.push(c);
        }
        i += 1;
    }
    assert(s@.take(i as int) =~= s@);
    push_viewed(&mut res, current);
    res
}

/// Splitting never yields an empty list of pieces, and no piece holds the separator.
pub proof fn lemma_split_pieces(s: Seq<char>, sep: char)
    ensures
        split(s, sep).len() >= 1,
        forall|i: int|
            0 <= i < split(s, sep).len() ==> !(#[trigger] split(s, sep)[i]).contains(sep),
    decreases s.len(),
{
    if s.len() > 0 {
        lemma_split_pieces(s.drop_last(), sep);
        let before = split(s.drop_last(), sep);
        assert forall|i: int| 0 <= i < split(s, sep).len() implies !(#[trigger] split(
            s,
            sep,
        )[i]).contains(sep) by {
            let piece = split(s, sep)[i];
            if i < before.len() - 1 {
                assert(piece == before[i]);
            } else if s.last() == sep {
                if i < before.len() {
                    assert(piece == before[i]);
                }
            } else {
                assert(piece == before.last().push(s.last()));
                assert(!before[before.len() - 1].contains(sep));
                if piece.contains(sep) {
                    let k = choose|k: int| 0 <= k < piece.len() && piece[k] == sep;
                    assert(before.last()[k] == sep);
                }
            }
        }
    }
}

/// Text without the separator after `s` only lengthens the last piece.
proof fn lemma_split_extend(s: Seq<char>, tail: Seq<char>, sep: char)
    requires
        !tail.contains(sep),
    ensures
        split(s + tail, sep) == split(s, sep).drop_last().push(split(s, sep).last() + tail),
    decreases tail.len(),
{
    lemma_split_pieces(s, sep);
    if tail.len() == 0 {
        assert(s + tail =~= s);
        assert(split(s, sep).last() + tail =~= split(s, sep).last());
        assert(split(s, sep) =~= split(s, sep).drop_last().push(split(s, sep).last()));
    } else {
        let shorter = tail.drop_last();
        assert(!shorter.contains(sep)) by {
            if shorter.contains(sep) {
                let k = choose|k: int| 0 <= k < shorter.len() && shorter[k] == sep;
                assert(tail[k] == sep);
            }
        }
        lemma_split_extend(s, shorter, sep);
        assert((s + tail).drop_last() =~= s + shorter);
        assert((s + tail).last() == tail.last());
        assert(tail.last() != sep) by {
            assert(tail[tail.len() - 1] == tail.last());
        }
        let before = split(s + shorter, sep);
        assert(before.last() == split(s, sep).last() + shorter);
        assert(before.drop_last() =~= split(s, sep).drop_last());
        assert((split(s, sep).last() + shorter).push(tail.last()) =~= split(s, sep).last() + tail);
    }
}

/// Splitting at `sep` undoes joining with `sep`, as long as no part holds `sep` itself.
pub proof fn lemma_split_join(parts: Seq<Seq<char>>, sep: char)
    requires
        parts.len() >= 1,
        forall|i: int| 0 <= i < parts.len() ==> !(#[trigger] parts[i]).contains(sep),
    ensures
        split(join(parts, seq![sep]), sep) == parts,
    decreases parts.len(),
{
    let none = Seq::<char>::empty();
    if parts.len() == 1 {
        lemma_split_extend(none, parts[0], sep);
        assert(none + parts[0] =~= parts[0]);
        assert(split(none, sep) =~= seq![none]);
        assert(split(parts[0], sep) =~= parts);
    } else {
        let init = parts.drop_last();
        assert forall|i: int| 0 <= i < init.len() implies !(#[trigger] init[i]).contains(sep) by {
            assert(init[i] == parts[i]);
        }
        lemma_split_join(init, sep);
        let head = join(init, seq![sep]) + seq![sep];
        assert(head.drop_last() =~= join(init, seq![sep]));
        assert(head.last() == sep);
        assert(split(head, sep) == init.push(none));
        assert(!parts[parts.len() - 1].contains(sep));
        lemma_split_extend(head, parts.last(), sep);
        assert(init.push(none).drop_last() =~= init);
        assert(none + parts.last() =~= parts.last());
        assert(init.push(parts.last()) =~= parts);
    }
}

/// Joining the pieces with `sep` gives back the text that was split.
pub proof fn lemma_join_split(s: Seq<char>, sep: char)
    ensures
        join(split(s, sep), seq![sep]) == s,
    decreases s.len(),
{
    lemma_split_pieces(s, sep);
    if s.len() > 0 {
        let before = split(s.drop_last(), sep);
        lemma_split_pieces(s.drop_last(), sep);
        lemma_join_split(s.drop_last(), sep);
        let now = split(s, sep);
        if s.last() == sep {
            assert(now.drop_last() =~= before);
            assert(join(now, seq![sep]) =~= s);
        } else {
            assert(now.drop_last() =~= before.drop_last());
            assert(now.last() == before.last().push(s.last()));
            if before.len() == 1 {
                assert(join(before, seq![sep]) == before[0]);
                assert(join(now, seq![sep]) == now[0]);
            }
            assert(join(now, seq![sep]) =~= s.drop_last().push(s.last()));
            assert(s.drop_last().push(s.last()) =~= s);
        }
    } else {
        assert(join(split(s, sep), seq![sep]) =~= s);
    }
}

// ── Lines and blanks ────────────────────────────────────

/// A line without the carriage return that may end it.
pub open spec fn strip_return(line: Seq<char>) -> Seq<char> {
    if line.len() > 0 && line.last() == '\r' {
        line.drop_last()
    } else {
        line
    }
}

/// The lines of a text. A line ends with a line feed, or a carriage return and a line feed; what
/// follows the last line feed is a line of its own, unless it is empty.
pub open spec fn lines(s: Seq<char>) -> Seq<Seq<char>> {
    let pieces = split(s, '\n');
    let ended = pieces.drop_last().map_values(|line: Seq<char>| strip_return(line));
    if pieces.last().len() == 0 {
        ended
    } else {
        ended.push(pieces.last())
    }
}

/// Unicode white space.
pub open spec fn is_space(c: char) -> bool {
    let n = c as int;
    ||| 0x9 <= n <= 0xd
    ||| n == 0x20
    ||| n == 0x85
    ||| n == 0xa0
    ||| n == 0x1680
    ||| 0x2000 <= n <= 0x200a
    ||| n == 0x2028
    ||| n == 0x2029
    ||| n == 0x202f
    ||| n == 0x205f
    ||| n == 0x3000
}

/// Only white space, or nothing at all.
pub open spec fn blank(s: Seq<char>) -> bool {
    forall|i: int| 0 <= i < s.len() ==> is_space(#[trigger] s[i])
}

/// `s` without the white space at both ends.
pub open spec fn trim(s: Seq<char>) -> Seq<char>
    decreases s.len(),
{
    if s.len() > 0 && is_space(s[0]) {
        trim(s.skip(1))
    } else if s.len() > 0 && is_space(s.last()) {
        trim(s.drop_last())
    } else {
        s
    }
}

fn is_space_char(c: char) -> (res: bool)
    ensures
        res == is_space(c),
{
    let n: u32 = c as u32;
    (0x9 <= n && n <= 0xd) || n == 0x20 || n == 0x85 || n == 0xa0 || n == 0x1680 || (0x2000 <= n
        && n <= 0x200a) || n == 0x2028 || n == 0x2029 || n == 0x202f || n == 0x205f || n == 0x3000
}

/// Whether a text holds only white space.
pub fn is_blank(s: &str) -> (res: bool)
    ensures
        res == blank(s@),
{
    let chars = to_chars(s);
    let mut i: usize = 0;
    while i < chars.len()
        invariant
            i <= chars@.len(),
            chars@ == s@,
            forall|k: int| 0 <= k < i ==> is_space(#[trigger] s@[k]),
        decreases chars@.len() - i,
    {
        if !is_space_char(chars[i]) {
            assert(!is_space(s@[i as int]));
            return false;
        }
        i += 1;
    }
    true
}

/// A text without the white space at both ends.
pub fn trim_text(s: &str) -> (res: String)
    ensures
        res@ == trim(s@),
{
    let chars = to_chars(s);
    let mut from: usize = 0;
    let mut to: usize = chars.len();
    assert(chars@.subrange(0, to as int) =~= s@);
    while from < to && is_space_char(chars[from])
        invariant
            from <= to <= chars@.len(),
            trim(chars@.subrange(from as int, to as int)) == trim(s@),
        decreases to - from,
    {
        assert(chars@.subrange(from as int, to as int).skip(1) =~= chars@.subrange(
            from + 1,
            to as int,
        ));
        from += 1;
    }
    while from < to && is_space_char(chars[to - 1])
        invariant
            from <= to <= chars@.len(),
            from < to ==> !is_space(chars@[from as int]),
            trim(chars@.subrange(from as int, to as int)) == trim(s@),
        decreases to - from,
    {
        assert(chars@.subrange(from as int, to as int).drop_last() =~= chars@.subrange(
            from as int,
            to - 1,
        ));
        to -= 1;
    }
    text_of(&chars, from, to)
}

/// The lines of a text.
pub fn lines_of(s: &str) -> (res: Vec<String>)
    ensures
        res.deep_view() == lines(s@),
{
    let pieces = split_text(s, '\n');
    let last: usize = pieces.len() - 1;
    let mut res: Vec<String> = Vec::new();
    let mut i: usize = 0;
    let ghost ended = split(s@, '\n').drop_last().map_values(|line: Seq<char>| strip_return(line));
    assert(res.deep_view() =~= ended.take(0));
    while i < last
        invariant
            i <= last,
            last == pieces@.len() - 1,
            pieces.deep_view() == split(s@, '\n'),
            ended == split(s@, '\n').drop_last().map_values(|line: Seq<char>| strip_return(line)),
            res.deep_view() == ended.take(i as int),
        decreases last - i,
    {
        let chars = to_chars(pieces[i].as_str());
        let ghost piece = pieces.deep_view()[i as int];
        assert(chars@ == piece);
        let mut end: usize = chars.len();
        if end > 0 && chars[end - 1] == '\r' {
            end = end - 1;
        }
        let line = text_of(&chars, 0, end);
        assert(line@ =~= strip_return(piece));
        push_viewed(&mut res, line);
        assert(ended.take(i as int).push(strip_return(piece)) =~= ended.take(i + 1));
        i += 1;
    }
    assert(ended.take(i as int) =~= ended);
    if !pieces[last].as_str().is_empty() {
        push_viewed(&mut res, pieces[last].clone());
    }
    res
}

/// Reading back lines that were each written with a line feed after it gives the same lines, as
/// long as none holds a line feed or ends with a carriage return.
pub proof fn lemma_lines_written(ls: Seq<Seq<char>>)
    requires
        ls.len() >= 1,
        forall|i: int|
            0 <= i < ls.len() ==> !(#[trigger] ls[i]).contains('\n') && strip_return(ls[i]) == ls[i],
    ensures
        lines(join(ls, seq!['\n']) + seq!['\n']) == ls,
{
    let none = Seq::<char>::empty();
    let all = ls.push(none);
    assert(all.drop_last() =~= ls);
    assert(join(all, seq!['\n']) =~= join(ls, seq!['\n']) + seq!['\n']);
    assert forall|i: int| 0 <= i < all.len() implies !(#[trigger] all[i]).contains('\n') by {
        if i < ls.len() {
            assert(all[i] == ls[i]);
        }
    }
    lemma_split_join(all, '\n');
    assert(ls.map_values(|line: Seq<char>| strip_return(line)) =~= ls);
}

/// Reading back lines that were written with a line feed between neighbours gives the same lines,
/// as long as none holds a line feed, none but the last ends with a carriage return, and the last
/// one is not empty.
pub proof fn lemma_lines_joined(ls: Seq<Seq<char>>)
    requires
        ls.len() >= 1,
        forall|i: int| 0 <= i < ls.len() ==> !(#[trigger] ls[i]).contains('\n'),
        forall|i: int| 0 <= i < ls.len() - 1 ==> strip_return(#[trigger] ls[i]) == ls[i],
        ls.last().len() > 0,
    ensures
        lines(join(ls, seq!['\n'])) == ls,
{
    lemma_split_join(ls, '\n');
    assert forall|i: int| 0 <= i < ls.len() - 1 implies strip_return(#[trigger] ls.drop_last()[i])
        == ls.drop_last()[i] by {
        assert(ls.drop_last()[i] == ls[i]);
    }
    assert(ls.drop_last().map_values(|line: Seq<char>| strip_return(line)) =~= ls.drop_last());
    assert(ls.drop_last().push(ls.last()) =~= ls);
}

/// No line holds a line feed.
pub proof fn lemma_lines_hold_no_feed(s: Seq<char>)
    ensures
        forall|i: int| 0 <= i < lines(s).len() ==> !(#[trigger] lines(s)[i]).contains('\n'),
{
    lemma_split_pieces(s, '\n');
    let pieces = split(s, '\n');
    assert forall|i: int| 0 <= i < lines(s).len() implies !(#[trigger] lines(s)[i]).contains(
        '\n',
    ) by {
        let line = lines(s)[i];
        assert(!pieces[i].contains('\n'));
        if line.contains('\n') {
            let k = choose|k: int| 0 <= k < line.len() && line[k] == '\n';
            assert(pieces[i][k] == '\n');
        }
    }
}

/// Only a blank text is empty once trimmed.
pub proof fn law_only_blanks_trim_to_nothing(s: Seq<char>)
    ensures
        trim(s).len() == 0 <==> blank(s),
    decreases s.len(),
{
    if s.len() > 0 && is_space(s[0]) {
        law_only_blanks_trim_to_nothing(s.skip(1));
        assert(blank(s.skip(1)) ==> blank(s)) by {
            if blank(s.skip(1)) {
                assert forall|i: int| 0 <= i < s.len() implies is_space(#[trigger] s[i]) by {
                    if i > 0 {
                        assert(s.skip(1)[i - 1] == s[i]);
                    }
                }
            }
        }
        assert(blank(s) ==> blank(s.skip(1)));
    } else if s.len() > 0 && is_space(s.last()) {
        assert(!is_space(s[0]));
        law_only_blanks_trim_to_nothing(s.drop_last());
        assert(s.drop_last()[0] == s[0]);
    }
}

// ── Laws ────────────────────────────────────────────────

/// The number that decimal digits stand for.
pub open spec fn value_of(s: Seq<char>) -> int
    decreases s.len(),
{
    if s.len() == 0 {
        0
    } else {
        10 * value_of(s.drop_last()) + (s.last() as int - 48)
    }
}

/// A number is written with decimal digits alone, without a leading zero, and the digits stand for
/// that number.
pub proof fn law_digits_stand_for_number(n: nat)
    ensures
        digits(n).len() >= 1,
        forall|i: int| 0 <= i < digits(n).len() ==> '0' <= #[trigger] digits(n)[i] <= '9',
        digits(n).len() > 1 ==> digits(n)[0] != '0',
        value_of(digits(n)) == n,
    decreases n,
{
    assert(value_of(Seq::<char>::empty()) == 0);
    if n >= 10 {
        law_digits_stand_for_number(n / 10);
        let head = digits(n / 10);
        assert(digits(n).drop_last() =~= head);
        assert(digits(n)[0] == head[0]);
        assert(digits(n).last() == digit((n % 10) as int));
        if head.len() == 1 && head[0] == '0' {
            assert(head.drop_last() =~= Seq::<char>::empty());
            assert(value_of(head) == 0);
        }
        assert forall|i: int| 0 <= i < digits(n).len() implies '0' <= #[trigger] digits(n)[i]
            <= '9' by {
            if i < head.len() {
                assert(digits(n)[i] == head[i]);
            }
        }
    } else {
        assert(digits(n).drop_last() =~= Seq::<char>::empty());
        assert(digits(n).last() == digit(n as int));
    }
}

/// A negative number is written as its opposite behind a minus sign; any other without a sign.
pub proof fn law_decimal_sign(i: int)
    ensures
        i >= 0 ==> decimal(i) == digits(i as nat),
        i < 0 ==> decimal(i).len() > 1 && decimal(i)[0] == '-' && decimal(i).skip(1) == digits(
            (-i) as nat,
        ),
{
    if i < 0 {
        law_digits_stand_for_number((-i) as nat);
        assert(decimal(i).skip(1) =~= digits((-i) as nat));
    }
}

/// A text stands in another exactly where the other is some text, that one, and some text behind it.
pub proof fn law_has_text(s: Seq<char>, part: Seq<char>)
    ensures
        has_text(s, part) <==> exists|a: Seq<char>, b: Seq<char>| s == #[trigger] (a + part + b),
{
    if has_text(s, part) {
        let i = choose|i: int| occurs_at(s, part, i);
        let a = s.take(i);
        let b = s.skip(i + part.len());
        assert(s =~= a + s.subrange(i, i + part.len()) + b);
        assert(s == a + part + b);
    }
    if exists|a: Seq<char>, b: Seq<char>| s == #[trigger] (a + part + b) {
        let (a, b) = choose|a: Seq<char>, b: Seq<char>| s == #[trigger] (a + part + b);
        let i = a.len() as int;
        assert(s.subrange(i, i + part.len()) =~= part);
        assert(occurs_at(s, part, i));
    }
}

/// Joining nothing gives nothing, joining one part gives that part, and one more part comes behind the
/// separator.
pub proof fn law_join_grows(parts: Seq<Seq<char>>, part: Seq<char>, sep: Seq<char>)
    ensures
        join(Seq::<Seq<char>>::empty(), sep) == Seq::<char>::empty(),
        join(seq![part], sep) == part,
        parts.len() > 0 ==> join(parts.push(part), sep) == join(parts, sep) + sep + part,
{
    assert(parts.push(part).drop_last() =~= parts);
}

/// What is trimmed off a text is white space, and what is left neither begins nor ends with any.
pub proof fn law_trim_cuts_white_space(s: Seq<char>)
    ensures
        exists|a: Seq<char>, b: Seq<char>|
            s == #[trigger] (a + trim(s) + b) && blank(a) && blank(b),
        trim(s).len() > 0 ==> !is_space(trim(s)[0]) && !is_space(trim(s).last()),
    decreases s.len(),
{
    let none = Seq::<char>::empty();
    if s.len() > 0 && is_space(s[0]) {
        law_trim_cuts_white_space(s.skip(1));
        let (a, b) = choose|a: Seq<char>, b: Seq<char>|
            s.skip(1) == #[trigger] (a + trim(s.skip(1)) + b) && blank(a) && blank(b);
        let front = seq![s[0]] + a;
        assert(s =~= seq![s[0]] + s.skip(1));
        assert(s =~= front + trim(s) + b);
        assert forall|i: int| 0 <= i < front.len() implies is_space(#[trigger] front[i]) by {
            if i > 0 {
                assert(front[i] == a[i - 1]);
            }
        }
        assert(blank(front));
    } else if s.len() > 0 && is_space(s.last()) {
        law_trim_cuts_white_space(s.drop_last());
        let (a, b) = choose|a: Seq<char>, b: Seq<char>|
            s.drop_last() == #[trigger] (a + trim(s.drop_last()) + b) && blank(a) && blank(b);
        let back = b.push(s.last());
        assert(s =~= s.drop_last().push(s.last()));
        assert(s =~= a + trim(s) + back);
        assert(blank(back));
    } else {
        assert(s =~= none + trim(s) + none);
        assert(blank(none));
    }
}

/// White space is the space, the characters from tab to carriage return, and the spaces and separators
/// that Unicode lists beyond ASCII; a text is blank exactly where it holds nothing else.
pub proof fn law_white_space(c: char, s: Seq<char>)
    ensures
        c <= '\u{7f}' ==> (is_space(c) <==> c == ' ' || '\t' <= c <= '\r'),
        c > '\u{7f}' ==> (is_space(c) <==> c == '\u{85}' || c == '\u{a0}' || c == '\u{1680}'
            || '\u{2000}' <= c <= '\u{200a}' || c == '\u{2028}' || c == '\u{2029}' || c
            == '\u{202f}' || c == '\u{205f}' || c == '\u{3000}'),
        blank(s) <==> !exists|i: int| 0 <= i < s.len() && !is_space(#[trigger] s[i]),
{
}

/// Lines that each end with a carriage return and a line feed are read back without either.
pub proof fn law_lines_with_returns(ls: Seq<Seq<char>>)
    requires
        ls.len() >= 1,
        forall|i: int| 0 <= i < ls.len() ==> !(#[trigger] ls[i]).contains('\n'),
    ensures
        lines(join(ls.map_values(|l: Seq<char>| l.push('\r')), seq!['\n']) + seq!['\n']) == ls,
{
    let ended = ls.map_values(|l: Seq<char>| l.push('\r'));
    let none = Seq::<char>::empty();
    let all = ended.push(none);
    assert(all.drop_last() =~= ended);
    assert(join(all, seq!['\n']) =~= join(ended, seq!['\n']) + seq!['\n']);
    assert forall|i: int| 0 <= i < all.len() implies !(#[trigger] all[i]).contains('\n') by {
        if i < ls.len() {
            assert(all[i] == ls[i].push('\r'));
            if all[i].contains('\n') {
                let k = choose|k: int| 0 <= k < all[i].len() && all[i][k] == '\n';
                assert(ls[i][k] == '\n');
            }
        }
    }
    lemma_split_join(all, '\n');
    assert forall|i: int| 0 <= i < ls.len() implies #[trigger] strip_return(ended[i]) == ls[i] by {
        assert(ended[i].drop_last() =~= ls[i]);
    }
    assert(ended.map_values(|line: Seq<char>| strip_return(line)) =~= ls);
}

/// White space round a text is trimmed off, and nothing of a text that neither begins nor ends with any.
pub proof fn law_trim_finds_core(a: Seq<char>, core: Seq<char>, b: Seq<char>)
    requires
        blank(a),
        blank(b),
        core.len() > 0 ==> !is_space(core[0]) && !is_space(core.last()),
    ensures
        trim(a + core + b) == core,
    decreases a.len() + b.len(),
{
    let s = a + core + b;
    if a.len() > 0 {
        assert(is_space(a[0]));
        assert(s[0] == a[0]);
        assert(s.skip(1) =~= a.skip(1) + core + b);
        assert forall|i: int| 0 <= i < a.skip(1).len() implies is_space(#[trigger] a.skip(1)[i]) by {
            assert(a.skip(1)[i] == a[i + 1]);
        }
        law_trim_finds_core(a.skip(1), core, b);
    } else if b.len() > 0 {
        assert(s.last() == b.last());
        assert(is_space(b[b.len() - 1]));
        if core.len() == 0 {
            assert(s[0] == b[0]);
            assert(s.skip(1) =~= a + core + b.skip(1));
            assert forall|i: int| 0 <= i < b.skip(1).len() implies is_space(
                #[trigger] b.skip(1)[i],
            ) by {
                assert(b.skip(1)[i] == b[i + 1]);
            }
            law_trim_finds_core(a, core, b.skip(1));
        } else {
            assert(s[0] == core[0]);
            assert(s.drop_last() =~= a + core + b.drop_last());
            law_trim_finds_core(a, core, b.drop_last());
        }
    } else {
        assert(s =~= core);
    }
}

} // verus!
