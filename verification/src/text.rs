//! Small verified text utilities over the character view of strings.
use vstd::prelude::*;

verus! {

broadcast use vstd::string::group_string_axioms;

/// `String::push` appends one character.
pub assume_specification[ String::push ](s: &mut String, ch: char)
    ensures
        final(s)@ == old(s)@.push(ch),
;

/// The characters of a string, in order.
pub fn chars_of(s: &str) -> (v: Vec<char>)
    ensures
        v@ == s@,
{
    let mut v: Vec<char> = Vec::new();
    for c in it: s.chars()
        invariant
            it.seq() == s@,
            v@ == it.seq().take(it.index()),
    {
        v.push(c);
    }
    v
}

/// The string made of the characters `chars[from..]`.
pub fn string_from_chars(chars: &Vec<char>, from: usize) -> (s: String)
    requires
        from <= chars@.len(),
    ensures
        s@ == chars@.skip(from as int),
{
    let mut s = String::new();
    let mut i = from;
    while i < chars.len()
        invariant
            from <= i <= chars@.len(),
            s@ == chars@.subrange(from as int, i as int),
        decreases chars@.len() - i,
    {
        s.push(chars[i]);
        proof {
            assert(chars@.subrange(from as int, i + 1) =~= chars@.subrange(from as int, i as int).push(chars@[i as int]));
        }
        i = i + 1;
    }
    proof {
        assert(chars@.subrange(from as int, chars@.len() as int) =~= chars@.skip(from as int));
    }
    s
}

/// The ASCII lower-case form of a character: `A` to `Z` become `a` to `z`,
/// every other character stays.
pub open spec fn lower_char(c: char) -> char {
    if 'A' <= c && c <= 'Z' {
        ((c as u32) + 32) as char
    } else {
        c
    }
}

/// The ASCII upper-case form of a character: `a` to `z` become `A` to `Z`,
/// every other character stays.
pub open spec fn upper_char(c: char) -> char {
    if 'a' <= c && c <= 'z' {
        ((c as u32) - 32) as char
    } else {
        c
    }
}

/// The ASCII lower-case form of a text.
pub open spec fn ascii_lower(s: Seq<char>) -> Seq<char> {
    s.map_values(|c: char| lower_char(c))
}

/// The ASCII upper-case form of a text.
pub open spec fn ascii_upper(s: Seq<char>) -> Seq<char> {
    s.map_values(|c: char| upper_char(c))
}

fn lower_one(c: char) -> (r: char)
    ensures
        r == lower_char(c),
{
    if 'A' <= c && c <= 'Z' {
        let b: u8 = c as u8;
        (b + 32) as char
    } else {
        c
    }
}

fn upper_one(c: char) -> (r: char)
    ensures
        r == upper_char(c),
{
    if 'a' <= c && c <= 'z' {
        let b: u8 = c as u8;
        (b - 32) as char
    } else {
        c
    }
}

/// A copy of the text with ASCII letters in lower case.
pub fn to_ascii_lower(s: &str) -> (r: String)
    ensures
        r@ == ascii_lower(s@),
{
    let mut out = String::new();
    for c in it: s.chars()
        invariant
            it.seq() == s@,
            out@ == ascii_lower(it.seq().take(it.index())),
    {
        proof {
            assert(ascii_lower(it.seq().take(it.index() + 1)) =~= ascii_lower(
                it.seq().take(it.index()),
            ).push(lower_char(c)));
        }
        out.push(lower_one(c));
    }
    proof {
        assert(s@.take(s@.len() as int) =~= s@);
    }
    out
}

/// A copy of the text with ASCII letters in upper case.
pub fn to_ascii_upper(s: &str) -> (r: String)
    ensures
        r@ == ascii_upper(s@),
{
    let mut out = String::new();
    for c in it: s.chars()
        invariant
            it.seq() == s@,
            out@ == ascii_upper(it.seq().take(it.index())),
    {
        proof {
            assert(ascii_upper(it.seq().take(it.index() + 1)) =~= ascii_upper(
                it.seq().take(it.index()),
            ).push(upper_char(c)));
        }
        out.push(upper_one(c));
    }
    proof {
        assert(s@.take(s@.len() as int) =~= s@);
    }
    out
}

/// The parts joined, with `sep` between each two neighbours.
pub open spec fn joined(parts: Seq<Seq<char>>, sep: char) -> Seq<char>
    decreases parts.len(),
{
    if parts.len() == 0 {
        Seq::empty()
    } else if parts.len() == 1 {
        parts[0]
    } else {
        joined(parts.drop_last(), sep).push(sep) + parts.last()
    }
}

/// The texts of a list of strings.
pub open spec fn texts(v: Seq<String>) -> Seq<Seq<char>> {
    v.map_values(|s: String| s@)
}

/// The strings joined with `sep` between each two neighbours.
pub fn join_with(parts: &[String], sep: char) -> (r: String)
    ensures
        r@ == joined(texts(parts@), sep),
{
    let mut out = String::new();
    let n = parts.len();
    if n == 0 {
        return out;
    }
    out.append(parts[0].as_str());
    proof {
        assert(texts(parts@).take(1) =~= seq![parts@[0]@]);
    }
    for i in 1..n
        invariant
            n == parts@.len(),
            out@ == joined(texts(parts@).take(i as int), sep),
    {
        let ghost prev = texts(parts@).take(i as int);
        out.push(sep);
        out.append(parts[i].as_str());
        proof {
            let next = texts(parts@).take(i + 1);
            assert(next.drop_last() =~= prev);
            assert(next.last() == parts@[i as int]@);
        }
    }
    proof {
        assert(texts(parts@).take(n as int) =~= texts(parts@));
    }
    out
}

/// The decimal digit of `d`, below 10.
pub open spec fn decimal_digit(d: nat) -> char {
    ((48 + d) as u32) as char
}

/// `n` in decimal, without leading zeros.
pub open spec fn decimal_text(n: nat) -> Seq<char>
    decreases n,
{
    if n < 10 {
        seq![decimal_digit(n)]
    } else {
        decimal_text(n / 10).push(decimal_digit(n % 10))
    }
}

/// `n` in decimal, as `{}` writes it.
pub fn decimal(n: usize) -> (r: String)
    ensures
        r@ == decimal_text(n as nat),
    decreases n,
{
    if n < 10 {
        let mut s = String::new();
        let b: u8 = n as u8;
        s.push((48 + b) as char);
        s
    } else {
        let mut s = decimal(n / 10);
        let b: u8 = (n % 10) as u8;
        s.push((48 + b) as char);
        s
    }
}

/// `prefix` followed by `rest`.
pub fn concat_text(prefix: &str, rest: &str) -> (r: String)
    ensures
        r@ == prefix@ + rest@,
{
    let mut s = String::new();
    s.append(prefix);
    s.append(rest);
    s
}

/// Lower-casing a lower-cased text changes nothing.
pub proof fn lemma_ascii_lower_idempotent(s: Seq<char>)
    ensures
        ascii_lower(ascii_lower(s)) == ascii_lower(s),
{
    assert(ascii_lower(ascii_lower(s)) =~= ascii_lower(s));
}

/// Upper-casing a lower-cased text gives the text upper-cased.
pub proof fn lemma_ascii_upper_of_lower(s: Seq<char>)
    ensures
        ascii_upper(ascii_lower(s)) == ascii_upper(s),
{
    assert forall|i: int| 0 <= i < s.len() implies upper_char(lower_char(s[i])) == upper_char(s[i]) by {
        let c = s[i];
        if 'A' <= c && c <= 'Z' {
            assert(lower_char(c) == ((c as u32) + 32) as char);
        }
    }
    assert(ascii_upper(ascii_lower(s)) =~= ascii_upper(s));
}

} // verus!
