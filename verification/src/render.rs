//! Rendering of numbers and bytes as text.

use vstd::prelude::*;
use vstd::string::*;

verus! {

/// The sixteen digits, in order of their value.
pub open spec fn digits() -> Seq<char> {
    "0123456789ABCDEF"@
}

/// Uppercase hexadecimal: two digits for each byte, the high half first.
pub open spec fn hex_upper(bytes: Seq<u8>) -> Seq<char> {
    Seq::new(
        2 * bytes.len(),
        |i: int|
            if i % 2 == 0 {
                digits()[bytes[i / 2] as int / 16]
            } else {
                digits()[bytes[i / 2] as int % 16]
            },
    )
}

/// Decimal notation without leading zeros.
pub open spec fn decimal(n: nat) -> Seq<char>
    decreases n,
{
    if n < 10 {
        seq![digits()[n as int]]
    } else {
        decimal(n / 10).push(digits()[(n % 10) as int])
    }
}

/// The digit of value `value`, as text.
fn digit(value: u8) -> (text: &'static str)
    requires
        value < 16,
    ensures
        text@ == seq![digits()[value as int]],
{
    let all = "0123456789ABCDEF";
    proof {
        reveal_strlit("0123456789ABCDEF");
    }
    let at: usize = value as usize;
    let text = all.substring_ascii(at, at + 1);
    proof {
        assert(text@ =~= seq![digits()[value as int]]);
    }
    text
}

/// Renders bytes as uppercase hexadecimal.
pub fn to_hex_upper(bytes: &[u8]) -> (text: String)
    ensures
        text@ == hex_upper(bytes@),
{
    let mut text = String::new();
    let mut i: usize = 0;
    while i < bytes.len()
        invariant
            i <= bytes@.len(),
            text@ == hex_upper(bytes@.subrange(0, i as int)),
        decreases bytes@.len() - i,
    {
        let byte: u8 = bytes[i];
        let ghost before = text@;
        text.append(digit(byte / 16));
        text.append(digit(byte % 16));
        proof {
            let next = bytes@.subrange(0, i + 1);
            assert(text@ == before + seq![digits()[byte as int / 16]] + seq![
                digits()[byte as int % 16],
            ]);
            assert forall|k: int| 0 <= k < 2 * (i + 1) implies text@[k] == hex_upper(next)[k] by {
                if k < 2 * i {
                    assert(before[k] == hex_upper(bytes@.subrange(0, i as int))[k]);
                    assert(bytes@.subrange(0, i as int)[k / 2] == next[k / 2]);
                } else {
                    assert(next[k / 2] == byte);
                }
            }
            assert(text@ =~= hex_upper(next));
        }
        i = i + 1;
    }
    proof {
        assert(bytes@.subrange(0, i as int) =~= bytes@);
    }
    text
}

/// Appends the decimal notation of `n` to `text`.
pub fn push_decimal(text: &mut String, n: u64)
    ensures
        final(text)@ == old(text)@ + decimal(n as nat),
    decreases n,
{
    if n >= 10 {
        push_decimal(text, n / 10);
    }
    text.append(digit((n % 10) as u8));
    proof {
        assert(text@ =~= old(text)@ + decimal(n as nat));
    }
}

/// Renders `n` in decimal notation.
pub fn to_decimal(n: u64) -> (text: String)
    ensures
        text@ == decimal(n as nat),
{
    let mut text = String::new();
    push_decimal(&mut text, n);
    proof {
        assert(Seq::<char>::empty() + decimal(n as nat) =~= decimal(n as nat));
    }
    text
}

} // verus!
