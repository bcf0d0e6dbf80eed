use pad::PadStr;
use vstd::prelude::*;
use vstd::string::*;

verus! {

/// Tells whether `c` is one of the two line-terminator characters.
pub fn is_crlf(c: char) -> (r: bool)
    ensures
        r == (c == '\n' || c == '\r'),
{
    c == '\n' || c == '\r'
}

/// What is left of a string once its first characters are cut off.
pub trait TruncAt {
    /// The string without its first `size` characters, or nothing where it has
    /// fewer than `size`.
    fn trucate_at(&self, size: usize) -> (r: Option<String>)
        ensures
            cut_front(self.chars_of(), size as nat) == match r {
                Some(rest) => Some(rest@),
                None => None::<Seq<char>>,
            },
    ;

    /// The characters of the value.
    spec fn chars_of(&self) -> Seq<char>;
}

/// `s` without its first `size` characters, where it has that many.
pub open spec fn cut_front(s: Seq<char>, size: nat) -> Option<Seq<char>> {
    if size > s.len() {
        None
    } else {
        Some(s.skip(size as int))
    }
}

impl TruncAt for str {
    open spec fn chars_of(&self) -> Seq<char> {
        self@
    }

    fn trucate_at(&self, size: usize) -> (r: Option<String>) {
        let n = self.unicode_len();
        if size > n {
            None
        } else {
            let rest = self.substring_char(size, n);
            assert(rest@ =~= self@.skip(size as int));
            Some(String::from_str(rest))
        }
    }
}

/// The character of the decimal digit `d`.
pub open spec fn digit_char(d: nat) -> char {
    ((48 + d) as u8) as char
}

/// The decimal digits of `n`, the most significant first.
pub open spec fn decimal(n: nat) -> Seq<char>
    decreases n,
{
    if n < 10 {
        seq![digit_char(n)]
    } else {
        decimal(n / 10).push(digit_char(n % 10))
    }
}

/// `n` spaces.
pub open spec fn spaces(n: nat) -> Seq<char> {
    Seq::new(n, |i: int| ' ')
}

/// The label of line number `n` in the gutter: the number, with spaces before
/// it where it has fewer than 4 digits, and two spaces behind it.
pub open spec fn line_label(n: nat) -> Seq<char> {
    let digits = decimal(n);
    let lead = if digits.len() < 4 {
        (4 - digits.len()) as nat
    } else {
        0
    };
    spaces(lead) + digits + spaces(2)
}

/// A number has fewer than 4 digits exactly if it is below 1000.
proof fn lemma_decimal_len(n: nat)
    ensures
        n < 10 ==> decimal(n).len() == 1,
        10 <= n < 100 ==> decimal(n).len() == 2,
        100 <= n < 1000 ==> decimal(n).len() == 3,
        1000 <= n ==> decimal(n).len() >= 4,
    decreases n,
{
    if n >= 10 {
        lemma_decimal_len(n / 10);
    }
}

/// Appends the decimal digits of `n` to `out`.
fn push_decimal(out: &mut String, n: u64)
    ensures
        final(out)@ == old(out)@ + decimal(n as nat),
    decreases n,
{
    if n >= 10 {
        push_decimal(out, n / 10);
    }
    out.push(((48 + n % 10) as u8) as char);
    assert(out@ =~= old(out)@ + decimal(n as nat));
}

/// The label of line number `n` in the gutter.
pub fn format_label(n: u64) -> (r: String)
    ensures
        r@ == line_label(n as nat),
{
    proof {
        lemma_decimal_len(n as nat);
    }
    let lead: usize = if n < 10 {
        3
    } else if n < 100 {
        2
    } else if n < 1000 {
        1
    } else {
        0
    };
    let mut out = String::new();
    let mut i: usize = 0;
    while i < lead
        invariant
            i <= lead,
            out@ == spaces(i as nat),
        decreases lead - i,
    {
        out.push(' ');
        i += 1;
        assert(out@ =~= spaces(i as nat));
    }
    push_decimal(&mut out, n);
    out.push(' ');
    out.push(' ');
    assert(out@ =~= line_label(n as nat));
    out
}

/// A text that is made of ASCII characters without line ends.
pub open spec fn plain(s: Seq<char>) -> bool {
    &&& vstd::utf8::is_ascii_chars(s)
    &&& forall|i: int| 0 <= i < s.len() ==> (#[trigger] s[i]) != '\n' && s[i] != '\r'
}

/// `s` cut or filled up with spaces to `width` characters.
pub open spec fn exact_width(s: Seq<char>, width: nat) -> Seq<char> {
    if s.len() >= width {
        s.take(width as int)
    } else {
        s + spaces((width - s.len()) as nat)
    }
}

/// `s` as a line of `width` columns, a character to a column: cut where it
/// is longer, filled up with spaces where it is shorter.
pub open spec fn fitted(s: Seq<char>, width: nat) -> Seq<char> {
    exact_width(s, width)
}

/// What pad's `with_exact_width` makes of a plain text: the text cut to
/// `width` characters, or spaces added behind it up to that width. For such
/// a text pad counts one column for each character, so that it cuts at a
/// character and adds one space for each column that is missing.
#[verifier::external_body]
fn with_exact_width(content: &str, width: usize) -> (r: String)
    requires
        plain(content@),
    ensures
        r@ == exact_width(content@, width as nat),
{
    content.with_exact_width(width)
}

/// Tells whether a text is made of ASCII characters without line ends.
fn is_plain(content: &str) -> (r: bool)
    ensures
        r == plain(content@),
{
    if !content.is_ascii() {
        return false;
    }
    let n = content.unicode_len();
    let mut i: usize = 0;
    while i < n
        invariant
            n == content@.len(),
            i <= n,
            content.is_ascii(),
            forall|k: int| 0 <= k < i ==> (#[trigger] content@[k]) != '\n' && content@[k] != '\r',
        decreases n - i,
    {
        let b = content.get_ascii(i);
        if b == 10 || b == 13 {
            return false;
        }
        i += 1;
    }
    true
}

/// A text cut to `width` characters, or filled up with spaces to that
/// many, character by character.
fn cut_or_fill(content: &str, width: usize) -> (r: String)
    ensures
        r@ == exact_width(content@, width as nat),
{
    let n = content.unicode_len();
    if n >= width {
        let kept = content.substring_char(0, width);
        assert(kept@ =~= content@.take(width as int));
        String::from_str(kept)
    } else {
        let mut out = String::from_str(content);
        let missing = width - n;
        let mut i: usize = 0;
        assert(out@ =~= content@ + spaces(0));
        while i < missing
            invariant
                i <= missing,
                out@ == content@ + spaces(i as nat),
            decreases missing - i,
        {
            out.push(' ');
            i += 1;
            assert(out@ =~= content@ + spaces(i as nat));
        }
        out
    }
}

/// A text as a line of `width` columns, a character to a column: cut where
/// it is longer, filled up with spaces where it is shorter.
pub fn fit_line(content: &str, width: u32) -> (r: String)
    ensures
        r@ == fitted(content@, width as nat),
{
    if is_plain(content) {
        with_exact_width(content, width as usize)
    } else {
        cut_or_fill(content, width as usize)
    }
}

} // verus!
