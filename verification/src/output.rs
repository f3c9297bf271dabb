use crate::scanner::Token;
use crate::symbols::{Symbol, SymbolTable, SymbolView};
use crate::text::{append_decimal, decimal_digits};
use vstd::prelude::*;
use vstd::string::StringExecFns;

verus! {

/// What the `Debug` formatting of the standard library writes for a symbol.
pub uninterp spec fn symbol_debug_text(symbol: SymbolView) -> Seq<char>;

/// What the `Debug` formatting of the standard library writes for a token.
pub uninterp spec fn token_debug_text(token: Token) -> Seq<char>;

/// `format!` with `{:?}` on a symbol, which goes through the derived `Debug`
/// of `Symbol` and `Const`. Nothing is proved of it: the contract gives its
/// result the name [`symbol_debug_text`] and states nothing else.
#[verifier::external_body]
fn symbol_debug(symbol: &Symbol) -> (text: String)
    ensures
        text@ == symbol_debug_text(symbol@),
{
    format!("{:?}", symbol)
}

/// `format!` with `{:?}` on a token, which goes through the derived `Debug`
/// of `Token` and of what it holds. Nothing is proved of it: the contract
/// gives its result the name [`token_debug_text`] and states nothing else.
#[verifier::external_body]
fn token_debug(token: &Token) -> (text: String)
    ensures
        text@ == token_debug_text(*token),
{
    format!("{:?}", token)
}

/// The decimal digits of `n`, with spaces before them where they are fewer than three.
pub open spec fn padded_number(n: nat) -> Seq<char> {
    if n < 10 {
        "  "@ + decimal_digits(n)
    } else if n < 100 {
        " "@ + decimal_digits(n)
    } else {
        decimal_digits(n)
    }
}

/// A line of output: the number, a colon and a space, the text, a line feed.
pub open spec fn line(number: nat, text: Seq<char>) -> Seq<char> {
    padded_number(number) + ": "@ + text + "\n"@
}

/// A line for each entry of a symbol table, in the order of the entries.
pub open spec fn symbol_lines(entries: Seq<(SymbolView, nat)>) -> Seq<char>
    decreases entries.len(),
{
    if entries.len() == 0 {
        Seq::empty()
    } else {
        symbol_lines(entries.drop_last()) + line(
            entries.last().1,
            symbol_debug_text(entries.last().0),
        )
    }
}

/// A line for each token, numbered from 0, in the order of the tokens.
pub open spec fn token_lines(tokens: Seq<Token>) -> Seq<char>
    decreases tokens.len(),
{
    if tokens.len() == 0 {
        Seq::empty()
    } else {
        token_lines(tokens.drop_last()) + line(
            (tokens.len() - 1) as nat,
            token_debug_text(tokens.last()),
        )
    }
}

/// Appends a line of output to `output`: the number, right-aligned in three
/// columns, a colon and a space, the text, a line feed.
pub fn push_line(output: &mut String, number: usize, text: &str)
    ensures
        final(output)@ == old(output)@ + line(number as nat, text@),
{
    if number < 10 {
        output.append("  ");
    } else if number < 100 {
        output.append(" ");
    }
    append_decimal(output, number);
    output.append(": ");
    output.append(text);
    output.append("\n");
    assert(output@ =~= old(output)@ + line(number as nat, text@));
}

/// Pretty prints a symbol table.
pub fn output_symbol_table(symbols: &SymbolTable) -> (output: String)
    requires
        symbols.wf(),
    ensures
        output@ == symbol_lines(symbols@.entries()),
{
    let mut output = String::new();
    let sorted = symbols.to_sorted_vec();
    let ghost entries = symbols@.entries();

    for k in 0..sorted.len()
        invariant
            entries == symbols@.entries(),
            sorted@.len() == entries.len(),
            forall|n: int|
                0 <= n < sorted@.len() ==> (#[trigger] sorted@[n]).0@ == entries[n].0
                    && sorted@[n].1 == entries[n].1,
            output@ == symbol_lines(entries.take(k as int)),
    {
        let (symbol, id) = sorted[k];
        let text = symbol_debug(symbol);
        push_line(&mut output, id, text.as_str());
        proof {
            let read = entries.take(k + 1);
            assert(read.drop_last() =~= entries.take(k as int));
            assert(read.last() == entries[k as int]);
        }
    }
    proof {
        assert(entries.take(entries.len() as int) =~= entries);
    }
    output
}

/// Pretty prints a list of tokens.
pub fn output_tokens(tokens: &[Token]) -> (output: String)
    ensures
        output@ == token_lines(tokens@),
{
    let mut output = String::new();

    for i in 0..tokens.len()
        invariant
            output@ == token_lines(tokens@.take(i as int)),
    {
        let text = token_debug(&tokens[i]);
        push_line(&mut output, i, text.as_str());
        proof {
            let read = tokens@.take(i + 1);
            assert(read.drop_last() =~= tokens@.take(i as int));
            assert(read.last() == tokens@[i as int]);
        }
    }
    proof {
        assert(tokens@.take(tokens@.len() as int) =~= tokens@);
    }
    output
}

} // verus!
