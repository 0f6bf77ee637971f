//! What becomes of a finished run: its output, its panic data, or its error.

use crate::byte_array::words;
use crate::felt::{be_value, FieldElement};
use crate::formatter::joined;
use crate::text::push_char;
use vstd::prelude::*;
use vstd::utf8::{decode_utf8, valid_utf8};

verus! {

/// How a run ended.
pub enum RunResult<E> {
    /// The program returned, with or without values.
    Returned(Option<String>),
    /// The program panicked with these field elements.
    Panicked(Vec<FieldElement>),
    /// The run failed for another reason.
    Failed(E),
}

/// What is to be done with the result of a run.
pub enum Reply<E> {
    /// The text is the final output.
    Output(String),
    /// The text is to be handed to the postprocessing service, whose answer
    /// is the final output.
    Postprocess(String),
    /// The run has no output; the error is passed on.
    Failure(E),
}

/// The modulus of the field: every field element of a run is below it.
pub open spec fn field_prime() -> nat {
    0x800000000000011000000000000000000000000000000000000000000000001nat
}

/// The decimal digit of a number below ten.
pub open spec fn decimal_digit(d: nat) -> char {
    (('0' as u8) + d) as u8 as char
}

/// The decimal digits of a number, most significant first and without
/// leading zeros; zero is the single digit `0`.
pub open spec fn decimal_digits(n: nat) -> Seq<char>
    decreases n,
{
    if n < 10 {
        seq![decimal_digit(n)]
    } else {
        decimal_digits(n / 10).push(decimal_digit(n % 10))
    }
}

/// The text of one value of the panic data: its number in decimal, followed,
/// where its 32 bytes are valid UTF-8, by the text they encode in single
/// quotes and round brackets.
pub open spec fn panic_value_text(word: Seq<u8>) -> Seq<char> {
    if valid_utf8(word) {
        decimal_digits(be_value(word)) + seq![' ', '(', '\''] + decode_utf8(word) + seq![
            '\'',
            ')',
        ]
    } else {
        decimal_digits(be_value(word))
    }
}

/// The texts of the values of the panic data, in order.
pub open spec fn panic_value_texts(elems: Seq<Seq<u8>>) -> Seq<Seq<char>> {
    Seq::new(elems.len(), |i: int| panic_value_text(elems[i]))
}

/// The report of a run that panicked: the texts of its panic data, joined
/// with commas, or `Null` where there is none, in square brackets.
pub open spec fn run_panic_text(elems: Seq<Seq<u8>>) -> Seq<char> {
    "Run panicked with: ["@ + (if elems.len() == 0 {
        "Null"@
    } else {
        joined(panic_value_texts(elems))
    }) + "]"@
}

/// Whether every element is a number below the modulus of the field.
pub open spec fn all_in_field(elems: Seq<Seq<u8>>) -> bool {
    forall|i: int| 0 <= i < elems.len() ==> be_value(#[trigger] elems[i]) < field_prime()
}

/// The number of the element in decimal.
///
/// Calls `Felt252::from_bytes_be` and the `Display` of the field element that
/// it gives. For an element below the modulus the contract states that the
/// text is the number in decimal; of other elements it states nothing.
#[verifier::external_body]
fn felt_decimal(felt: &FieldElement) -> (text: String)
    ensures
        be_value(felt@) < field_prime() ==> text@ == decimal_digits(be_value(felt@)),
{
    cairo_vm::Felt252::from_bytes_be(&felt.bytes).to_string()
}

/// The text that the 32 bytes of the element encode, if they are valid UTF-8.
///
/// Calls `String::from_utf8` of the standard library. The contract states
/// that there is a text exactly for valid UTF-8, and that it is the decoded
/// bytes.
#[verifier::external_body]
fn felt_utf8(felt: &FieldElement) -> (text: Option<String>)
    ensures
        text is Some <==> valid_utf8(felt@),
        text is Some ==> text->0@ == decode_utf8(felt@),
{
    String::from_utf8(felt.bytes.to_vec()).ok()
}

/// The text of one value of the panic data.
pub fn format_panic_value(felt: &FieldElement) -> (text: String)
    ensures
        be_value(felt@) < field_prime() ==> text@ == panic_value_text(felt@),
{
    let mut text = felt_decimal(felt);
    match felt_utf8(felt) {
        Some(message) => {
            push_char(&mut text, ' ');
            push_char(&mut text, '(');
            push_char(&mut text, '\'');
            text.append(message.as_str());
            push_char(&mut text, '\'');
            push_char(&mut text, ')');
            assert(be_value(felt@) < field_prime() ==> text@ =~= panic_value_text(felt@));
        },
        None => {},
    }
    text
}

/// The report of a run that panicked with the given data.
pub fn format_run_panic(panic_data: &[FieldElement]) -> (report: String)
    ensures
        all_in_field(words(panic_data@)) ==> report@ == run_panic_text(words(panic_data@)),
{
    let ghost elems = words(panic_data@);
    let mut report = String::from_str("Run panicked with: [");
    if panic_data.len() == 0 {
        report.append("Null");
    } else {
        report.append(format_panic_value(&panic_data[0]).as_str());
        let mut i: usize = 1;
        proof {
            if all_in_field(elems) {
                assert(be_value(elems[0]) < field_prime());
                assert(panic_value_texts(elems).subrange(0, 1) =~= seq![panic_value_text(elems[0])]);
            }
        }
        while i < panic_data.len()
            invariant
                1 <= i <= panic_data.len(),
                elems == words(panic_data@),
                all_in_field(elems) ==> report@ == "Run panicked with: ["@ + joined(
                    panic_value_texts(elems).subrange(0, i as int),
                ),
            decreases panic_data.len() - i,
        {
            let ghost before = report@;
            push_char(&mut report, ',');
            push_char(&mut report, ' ');
            report.append(format_panic_value(&panic_data[i]).as_str());
            i += 1;
            proof {
                if all_in_field(elems) {
                    let texts = panic_value_texts(elems);
                    assert(be_value(elems[i - 1]) < field_prime());
                    assert(texts.subrange(0, i as int).drop_last() =~= texts.subrange(0, i - 1));
                    assert(report@ =~= "Run panicked with: ["@ + joined(
                        texts.subrange(0, i as int),
                    ));
                }
            }
        }
        assert(panic_value_texts(elems).subrange(0, i as int) =~= panic_value_texts(elems));
    }
    report.append("]");
    report
}

/// Decides what is to be done with the result of a run.
///
/// A run that returned gives its values, or `Null` where it returned none:
/// as the final output, or for postprocessing where that is asked for. A run
/// that panicked gives its report as the final output, postprocessing or
/// not. Any other failure is passed on.
pub fn process_result<E>(result: RunResult<E>, postprocess: bool) -> (reply: Reply<E>)
    ensures
        match result {
            RunResult::Returned(Some(values)) => if postprocess {
                reply == Reply::<E>::Postprocess(values)
            } else {
                reply == Reply::<E>::Output(values)
            },
            RunResult::Returned(None) => if postprocess {
                reply is Postprocess && reply->Postprocess_0@ == "Null"@
            } else {
                reply is Output && reply->Output_0@ == "Null"@
            },
            RunResult::Panicked(panic_data) => {
                &&& reply is Output
                &&& all_in_field(words(panic_data@)) ==> reply->Output_0@ == run_panic_text(
                    words(panic_data@),
                )
            },
            RunResult::Failed(error) => reply == Reply::<E>::Failure(error),
        },
{
    match result {
        RunResult::Returned(values) => {
            let output = match values {
                Some(values) => values,
                None => String::from_str("Null"),
            };
            if postprocess {
                Reply::Postprocess(output)
            } else {
                Reply::Output(output)
            }
        },
        RunResult::Panicked(panic_data) => Reply::Output(format_run_panic(panic_data.as_slice())),
        RunResult::Failed(error) => Reply::Failure(error),
    }
}

} // verus!
