//! Symbols of the contract's environment.

use soroban_sdk::{Env, Symbol};
use vstd::prelude::*;

verus! {

#[verifier::external_type_specification]
#[verifier::external_body]
pub struct ExEnv(Env);

#[verifier::external_type_specification]
#[verifier::external_body]
pub struct ExSymbol(Symbol);

/// A character that a symbol admits: an ASCII letter, digit or `_`.
pub open spec fn symbol_char(c: char) -> bool {
    ||| 'a' as u32 <= c as u32 <= 'z' as u32
    ||| 'A' as u32 <= c as u32 <= 'Z' as u32
    ||| '0' as u32 <= c as u32 <= '9' as u32
    ||| c == '_'
}

/// Text that a symbol can hold: at most 32 admitted characters.
pub open spec fn valid_symbol_text(s: Seq<char>) -> bool {
    &&& s.len() <= 32
    &&& forall|i: int| 0 <= i < s.len() ==> symbol_char(#[trigger] s[i])
}

/// The text of a symbol: what `<Symbol as ToString>::to_string` returns.
pub uninterp spec fn symbol_text(sym: Symbol) -> Seq<char>;

/// `soroban_sdk::Symbol::new`: builds the symbol whose text is `s` in `env`,
/// so the symbol's text (as `to_string` gives it back) is `s`. The SDK
/// panics on text with a character outside `[a-zA-Z0-9_]` or longer than 32
/// characters, so `requires` leaves such text out. Nothing is claimed of the
/// host's resource budget, whose exhaustion would also stop the call.
#[verifier::external_body]
fn symbol_new(env: &Env, s: &str) -> (sym: Symbol)
    requires
        valid_symbol_text(s@),
    ensures
        symbol_text(sym) == s@,
{
    Symbol::new(env, s)
}

/// The `migrate_done` symbol in `env`.
pub fn test_sym(env: &Env) -> (sym: Symbol)
    ensures
        symbol_text(sym) == "migrate_done"@,
{
    proof {
        reveal_strlit("migrate_done");
    }
    symbol_new(env, "migrate_done")
}

} // verus!
