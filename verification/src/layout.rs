//! Names of the memory layouts that a run can be asked to use.

use vstd::prelude::*;
use vstd::string::StringSliceAdditionalSpecFns;
use vstd::utf8::encode_utf8_decode_utf8;

verus! {

/// A memory layout of the virtual machine.
#[derive(Clone, Copy, Debug, PartialEq, Eq, Structural)]
pub enum Layout {
    Plain,
    Small,
    Dex,
    Recursive,
    Starknet,
    StarknetWithKeccak,
    RecursiveLargeOutput,
    RecursiveWithPoseidon,
    AllSolidity,
    AllCairo,
    Dynamic,
}

/// Whether the name is one that a run accepts for its layout.
pub open spec fn is_valid_layout(name: Seq<char>) -> bool {
    ||| name == "plain"@
    ||| name == "small"@
    ||| name == "dex"@
    ||| name == "starknet"@
    ||| name == "starknet_with_keccak"@
    ||| name == "recursive_large_output"@
    ||| name == "all_cairo"@
    ||| name == "all_solidity"@
    ||| name == "dynamic"@
}

/// The layout that a name stands for; a name that stands for none gives `AllCairo`.
pub open spec fn layout_of(name: Seq<char>) -> Layout {
    if name == "plain"@ {
        Layout::Plain
    } else if name == "small"@ {
        Layout::Small
    } else if name == "dex"@ {
        Layout::Dex
    } else if name == "recursive"@ {
        Layout::Recursive
    } else if name == "starknet"@ {
        Layout::Starknet
    } else if name == "starknet_with_keccak"@ {
        Layout::StarknetWithKeccak
    } else if name == "recursive_large_output"@ {
        Layout::RecursiveLargeOutput
    } else if name == "recursive_with_poseidon"@ {
        Layout::RecursiveWithPoseidon
    } else if name == "all_solidity"@ {
        Layout::AllSolidity
    } else if name == "all_cairo"@ {
        Layout::AllCairo
    } else if name == "dynamic"@ {
        Layout::Dynamic
    } else {
        Layout::AllCairo
    }
}

/// Whether two strings have the same characters.
pub fn same_text(a: &str, b: &str) -> (same: bool)
    ensures
        same == (a@ == b@),
{
    let x = a.as_bytes();
    let y = b.as_bytes();
    if x.len() != y.len() {
        return false;
    }
    let mut i: usize = 0;
    while i < x.len()
        invariant
            i <= x.len(),
            x.len() == y.len(),
            x@ == a.spec_bytes(),
            y@ == b.spec_bytes(),
            forall|j: int| 0 <= j < i ==> x@[j] == y@[j],
        decreases x.len() - i,
    {
        if x[i] != y[i] {
            return false;
        }
        i += 1;
    }
    proof {
        assert(x@ =~= y@);
        encode_utf8_decode_utf8(a@);
        encode_utf8_decode_utf8(b@);
    }
    true
}

/// Accepts the name of a layout that a run can use and hands it back; any
/// other name gives a message that says so.
pub fn validate_layout(value: &str) -> (checked: Result<String, String>)
    ensures
        match checked {
            Ok(name) => is_valid_layout(value@) && name@ == value@,
            Err(message) => !is_valid_layout(value@) && message@ == value@
                + " is not a valid layout"@,
        },
{
    let accepted = same_text(value, "plain")
        || same_text(value, "small")
        || same_text(value, "dex")
        || same_text(value, "starknet")
        || same_text(value, "starknet_with_keccak")
        || same_text(value, "recursive_large_output")
        || same_text(value, "all_cairo")
        || same_text(value, "all_solidity")
        || same_text(value, "dynamic");
    if accepted {
        Ok(String::from_str(value))
    } else {
        let mut message = String::from_str(value);
        message.append(" is not a valid layout");
        Err(message)
    }
}

/// The layout that a name stands for; a name that stands for none gives `AllCairo`.
pub fn str_into_layout(value: &str) -> (layout: Layout)
    ensures
        layout == layout_of(value@),
{
    if same_text(value, "plain") {
        Layout::Plain
    } else if same_text(value, "small") {
        Layout::Small
    } else if same_text(value, "dex") {
        Layout::Dex
    } else if same_text(value, "recursive") {
        Layout::Recursive
    } else if same_text(value, "starknet") {
        Layout::Starknet
    } else if same_text(value, "starknet_with_keccak") {
        Layout::StarknetWithKeccak
    } else if same_text(value, "recursive_large_output") {
        Layout::RecursiveLargeOutput
    } else if same_text(value, "recursive_with_poseidon") {
        Layout::RecursiveWithPoseidon
    } else if same_text(value, "all_solidity") {
        Layout::AllSolidity
    } else if same_text(value, "all_cairo") {
        Layout::AllCairo
    } else if same_text(value, "dynamic") {
        Layout::Dynamic
    } else {
        Layout::AllCairo
    }
}

} // verus!
