use vstd::prelude::*;
use crate::lines::push_char;

verus! {

/// The decimal digit character for `d < 10`.
pub open spec fn digit_char(d: nat) -> char {
    ((48 + d) as u8) as char
}

/// The decimal numeral of `n`, without leading zeros.
pub open spec fn decimal(n: nat) -> Seq<char>
    decreases n,
{
    if n < 10 {
        seq![digit_char(n)]
    } else {
        decimal(n / 10).push(digit_char(n % 10))
    }
}

/// The report line of the token counter: `"<name>   <count> tokens\n"`.
pub open spec fn token_line_text(name: Seq<char>, count: nat) -> Seq<char> {
    name + seq![' ', ' ', ' '] + decimal(count) + seq![' ', 't', 'o', 'k', 'e', 'n', 's', '\n']
}

/// The block of the prompt renderer: `"<name>\n\n<text>\n"`.
pub open spec fn prompt_block_text(name: Seq<char>, text: Seq<char>) -> Seq<char> {
    name + seq!['\n', '\n'] + text + seq!['\n']
}

/// Appends the decimal numeral of `n` to `out`.
fn push_decimal(out: &mut String, n: usize)
    ensures
        final(out)@ == old(out)@ + decimal(n as nat),
    decreases n,
{
    if n >= 10 {
        push_decimal(out, n / 10);
    }
    let d: u8 = (n % 10) as u8;
    push_char(out, (48u8 + d) as char);
    proof {
        assert(digit_char((n % 10) as nat) == (48u8 + d) as char);
    }
}

/// Renders the token counter's line for one file.
pub fn token_line(name: &str, count: usize) -> (r: String)
    ensures
        r@ == token_line_text(name@, count as nat),
{
    let mut r = name.to_string();
    r.append("   ");
    push_decimal(&mut r, count);
    r.append(" tokens\n");
    proof {
        reveal_strlit("   ");
        reveal_strlit(" tokens\n");
    }
    assert(r@ =~= token_line_text(name@, count as nat));
    r
}

/// Renders the prompt block for one file; the text goes in verbatim.
pub fn prompt_block(name: &str, text: &str) -> (r: String)
    ensures
        r@ == prompt_block_text(name@, text@),
{
    let mut r = name.to_string();
    r.append("\n\n");
    r.append(text);
    r.append("\n");
    proof {
        reveal_strlit("\n\n");
        reveal_strlit("\n");
    }
    assert(r@ =~= prompt_block_text(name@, text@));
    r
}

} // verus!
