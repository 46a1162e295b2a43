//! Escaping of user text placed in text fields and in URL fields.
use vstd::prelude::*;

verus! {

/// What one character of text becomes: markup-significant characters turn
/// into entities, all others stay.
pub open spec fn text_char(c: char) -> Seq<char> {
    if c == '&' {
        seq!['&', 'a', 'm', 'p', ';']
    } else if c == '<' {
        seq!['&', 'l', 't', ';']
    } else if c == '>' {
        seq!['&', 'g', 't', ';']
    } else if c == '"' {
        seq!['&', 'q', 'u', 'o', 't', ';']
    } else {
        seq![c]
    }
}

pub open spec fn escaped_text(s: Seq<char>) -> Seq<char>
    decreases s.len(),
{
    if s.len() == 0 {
        seq![]
    } else {
        escaped_text(s.drop_last()) + text_char(s.last())
    }
}

/// ASCII characters that stand in a URL as they are.
pub open spec fn url_safe(c: char) -> bool {
    ('a' <= c && c <= 'z') || ('A' <= c && c <= 'Z') || ('0' <= c && c <= '9') || c == '-'
        || c == '_' || c == '.' || c == '+' || c == '!' || c == '*' || c == '(' || c == ')'
        || c == ',' || c == '%' || c == '#' || c == '@' || c == '?' || c == '=' || c == ';'
        || c == ':' || c == '/' || c == '$' || c == '~'
}

pub open spec fn hex_digit(n: u32) -> char {
    if n < 10 {
        (('0' as u32) + n) as char
    } else {
        (('A' as u32) + n - 10) as char
    }
}

/// What one character of a URL becomes: safe characters and non-ASCII ones
/// stay, `&` and `'` turn into entities, other ASCII is percent-encoded.
pub open spec fn url_char(c: char) -> Seq<char> {
    if url_safe(c) || (c as u32) >= 128 {
        seq![c]
    } else if c == '&' {
        seq!['&', 'a', 'm', 'p', ';']
    } else if c == '\'' {
        seq!['&', '#', 'x', '2', '7', ';']
    } else {
        seq!['%', hex_digit((c as u32) / 16), hex_digit((c as u32) % 16)]
    }
}

pub open spec fn escaped_url(s: Seq<char>) -> Seq<char>
    decreases s.len(),
{
    if s.len() == 0 {
        seq![]
    } else {
        escaped_url(s.drop_last()) + url_char(s.last())
    }
}

fn push_all(out: &mut Vec<char>, s: &[char])
    ensures
        final(out)@ == old(out)@ + s@,
{
    let mut i: usize = 0;
    while i < s.len()
        invariant
            0 <= i <= s@.len(),
            out@ == old(out)@ + s@.subrange(0, i as int),
        decreases s@.len() - i,
    {
        out.push(s[i]);
        i = i + 1;
        assert(out@ =~= old(out)@ + s@.subrange(0, i as int));
    }
    assert(s@.subrange(0, s@.len() as int) =~= s@);
}

pub(crate) fn hex_digit_exec(n: u32) -> (r: char)
    requires
        n < 16,
    ensures
        r == hex_digit(n),
{
    let digits: [char; 16] = ['0', '1', '2', '3', '4', '5', '6', '7', '8', '9', 'A', 'B', 'C', 'D', 'E', 'F'];
    let r = digits[n as usize];
    assert(r == hex_digit(n)) by {
        assert(digits@[n as int] == r);
    }
    r
}

/// Escapes text for a text field of the document.
pub fn escape_text(s: &Vec<char>) -> (r: Vec<char>)
    ensures
        r@ == escaped_text(s@),
{
    let mut out: Vec<char> = Vec::new();
    let mut i: usize = 0;
    while i < s.len()
        invariant
            0 <= i <= s@.len(),
            out@ == escaped_text(s@.subrange(0, i as int)),
        decreases s@.len() - i,
    {
        let c = s[i];
        if c == '&' {
            push_all(&mut out, &['&', 'a', 'm', 'p', ';']);
        } else if c == '<' {
            push_all(&mut out, &['&', 'l', 't', ';']);
        } else if c == '>' {
            push_all(&mut out, &['&', 'g', 't', ';']);
        } else if c == '"' {
            push_all(&mut out, &['&', 'q', 'u', 'o', 't', ';']);
        } else {
            out.push(c);
        }
        proof {
            let post = s@.subrange(0, i + 1);
            assert(post.drop_last() =~= s@.subrange(0, i as int));
            assert(post.last() == c);
            assert(out@ =~= escaped_text(post));
        }
        i = i + 1;
    }
    assert(s@.subrange(0, s@.len() as int) =~= s@);
    out
}

/// Escapes a URL for a URL field of the document.
pub fn escape_url(s: &Vec<char>) -> (r: Vec<char>)
    ensures
        r@ == escaped_url(s@),
{
    let mut out: Vec<char> = Vec::new();
    let mut i: usize = 0;
    while i < s.len()
        invariant
            0 <= i <= s@.len(),
            out@ == escaped_url(s@.subrange(0, i as int)),
        decreases s@.len() - i,
    {
        let c = s[i];
        let safe = ('a' <= c && c <= 'z') || ('A' <= c && c <= 'Z') || ('0' <= c && c <= '9')
            || c == '-' || c == '_' || c == '.' || c == '+' || c == '!' || c == '*' || c == '('
            || c == ')' || c == ',' || c == '%' || c == '#' || c == '@' || c == '?' || c == '='
            || c == ';' || c == ':' || c == '/' || c == '$' || c == '~';
        let code = c as u32;
        if safe || code >= 128 {
            out.push(c);
        } else if c == '&' {
            push_all(&mut out, &['&', 'a', 'm', 'p', ';']);
        } else if c == '\'' {
            push_all(&mut out, &['&', '#', 'x', '2', '7', ';']);
        } else {
            let hi = hex_digit_exec(code / 16);
            let lo = hex_digit_exec(code % 16);
            push_all(&mut out, &['%', hi, lo]);
        }
        proof {
            let post = s@.subrange(0, i + 1);
            assert(post.drop_last() =~= s@.subrange(0, i as int));
            assert(post.last() == c);
            assert(out@ =~= escaped_url(post));
        }
        i = i + 1;
    }
    assert(s@.subrange(0, s@.len() as int) =~= s@);
    out
}

/// The decimal digits of `n`, most significant first.
pub open spec fn decimal(n: nat) -> Seq<char>
    decreases n,
{
    if n < 10 {
        seq![hex_digit(n as u32)]
    } else {
        decimal(n / 10).push(hex_digit((n % 10) as u32))
    }
}

/// Appends the decimal digits of `n`.
pub fn push_decimal(out: &mut Vec<char>, n: usize)
    ensures
        final(out)@ == old(out)@ + decimal(n as nat),
    decreases n,
{
    if n >= 10 {
        push_decimal(out, n / 10);
        let d = hex_digit_exec((n % 10) as u32);
        out.push(d);
        assert(final(out)@ =~= old(out)@ + decimal(n as nat));
    } else {
        let d = hex_digit_exec(n as u32);
        out.push(d);
        assert(final(out)@ =~= old(out)@ + decimal(n as nat));
    }
}

} // verus!
