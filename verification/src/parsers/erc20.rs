//! ERC-20 token metadata.

use vstd::prelude::*;

use crate::parsers::CallError;

verus! {

use vstd::string::StringExecFns;
use vstd::string::StrSliceExecFns;

/// The name, symbol and decimals of an ERC-20 token.
#[derive(Debug)]
pub struct ERC20Metadata {
    pub name: String,
    pub symbol: String,
    pub decimals: u8,
}

/// The character of a decimal digit.
pub open spec fn digit_char(d: int) -> char {
    (0x30 + d) as char
}

/// The decimal text of a number, without leading zeros.
pub open spec fn decimal_text(n: nat) -> Seq<char>
    decreases n,
{
    if n < 10 {
        seq![digit_char(n as int)]
    } else {
        decimal_text(n / 10).push(digit_char((n % 10) as int))
    }
}

/// The text of token metadata:
/// `ERC20Metadata { name: <name>, symbol: <symbol>, decimals: <decimals> }`.
pub open spec fn metadata_text(name: Seq<char>, symbol: Seq<char>, decimals: nat) -> Seq<char> {
    "ERC20Metadata { name: "@ + name + ", symbol: "@ + symbol + ", decimals: "@ + decimal_text(
        decimals,
    ) + " }"@
}

/// The text of one decimal digit.
fn digit_str(d: u8) -> (s: &'static str)
    requires
        d < 10,
    ensures
        s@ == seq![digit_char(d as int)],
{
    let digits = "0123456789";
    proof {
        reveal_strlit("0123456789");
    }
    digits.substring_char(d as usize, d as usize + 1)
}

/// The decimal text of a byte.
fn decimal_string(n: u8) -> (s: String)
    ensures
        s@ == decimal_text(n as nat),
{
    let mut s = String::new();
    if n >= 100 {
        s.append(digit_str(n / 100));
    }
    if n >= 10 {
        s.append(digit_str((n / 10) % 10));
    }
    s.append(digit_str(n % 10));
    proof {
        let k = n as nat;
        if k >= 100 {
            assert(decimal_text(k / 100) == seq![digit_char((k / 100) as int)]);
            assert((k / 10) / 10 == k / 100);
            assert(decimal_text(k / 10) == decimal_text((k / 10) / 10).push(digit_char(((k / 10) % 10) as int)));
        } else if k >= 10 {
            assert(decimal_text(k / 10) == seq![digit_char((k / 10) as int)]);
        }
        assert(s@ =~= decimal_text(k));
    }
    s
}

impl ERC20Metadata {
    /// The metadata as text, as its `Display` writes it:
    /// `ERC20Metadata { name: <name>, symbol: <symbol>, decimals: <decimals> }`.
    pub fn to_string(&self) -> (text: String)
        ensures
            text@ == metadata_text(self.name@, self.symbol@, self.decimals as nat),
            text@ == "ERC20Metadata { name: "@ + self.name@ + ", symbol: "@ + self.symbol@
                + ", decimals: "@ + decimal_text(self.decimals as nat) + " }"@,
    {
        let mut text = String::from_str("ERC20Metadata { name: ");
        text.append(self.name.as_str());
        text.append(", symbol: ");
        text.append(self.symbol.as_str());
        text.append(", decimals: ");
        let decimals = decimal_string(self.decimals);
        text.append(decimals.as_str());
        text.append(" }");
        text
    }
}

/// The metadata of a token from the answers of its `name`, `symbol` and
/// `decimals` calls (`None` for a call that could not be made or decoded).
/// The first call that failed, in that order, is the error.
pub fn erc20_metadata(name: Option<String>, symbol: Option<String>, decimals: Option<u8>) -> (metadata:
    Result<ERC20Metadata, CallError>)
    ensures
        name is None ==> metadata == Err::<ERC20Metadata, CallError>(CallError::Name),
        name is Some && symbol is None ==> metadata == Err::<ERC20Metadata, CallError>(CallError::Symbol),
        name is Some && symbol is Some && decimals is None ==> metadata == Err::<ERC20Metadata, CallError>(
            CallError::Decimals,
        ),
        name is Some && symbol is Some && decimals is Some ==> (metadata matches Ok(m) && m.name
            == name.unwrap() && m.symbol == symbol.unwrap() && m.decimals == decimals.unwrap()),
{
    let name = match name {
        Some(n) => n,
        None => return Err(CallError::Name),
    };
    let symbol = match symbol {
        Some(s) => s,
        None => return Err(CallError::Symbol),
    };
    let decimals = match decimals {
        Some(d) => d,
        None => return Err(CallError::Decimals),
    };
    Ok(ERC20Metadata { name, symbol, decimals })
}

/// The number that decimal digits spell.
pub open spec fn digits_value(s: Seq<char>) -> int
    decreases s.len(),
{
    if s.len() == 0 {
        0
    } else {
        digits_value(s.drop_last()) * 10 + (s.last() as int - 0x30)
    }
}

/// The decimal text of a number is made of decimal digits, starts with no
/// zero unless it is the number 0, and spells that number.
pub proof fn lemma_decimal_text(n: nat)
    ensures
        decimal_text(n).len() > 0,
        forall|i: int| 0 <= i < decimal_text(n).len() ==> 0x30 <= #[trigger] decimal_text(n)[i] as int <= 0x39,
        n >= 10 ==> decimal_text(n)[0] != '0',
        digits_value(decimal_text(n)) == n,
    decreases n,
{
    let t = decimal_text(n);
    if n < 10 {
        assert(t.last() as int == 0x30 + n);
        assert(t.drop_last() =~= Seq::<char>::empty());
        assert(digits_value(t) == digits_value(t.drop_last()) * 10 + (t.last() as int - 0x30));
    } else {
        lemma_decimal_text(n / 10);
        assert(t.drop_last() =~= decimal_text(n / 10));
        assert(t.last() as int == 0x30 + n % 10);
        assert(digits_value(t) == digits_value(t.drop_last()) * 10 + (t.last() as int - 0x30));
        assert(n == (n / 10) * 10 + n % 10);
        if n / 10 >= 10 {
        } else {
            assert(decimal_text(n / 10)[0] != '0');
        }
    }
}

} // verus!
