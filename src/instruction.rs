use vstd::prelude::*;

use crate::codec::{decode, decoding, encode, encoding, lemma_round_trip, Invoice, InvoiceView, INVOICE_LEN};
use crate::error::InvoiceError;

verus! {

/// The operations of the program, as carried in an instruction payload.
#[derive(Debug, Clone, Copy)]
pub enum Instruction {
    PayInvoice,
    CreateInvoice(Invoice),
}

pub enum InstructionView {
    PayInvoice,
    CreateInvoice(InvoiceView),
}

impl View for Instruction {
    type V = InstructionView;

    open spec fn view(&self) -> InstructionView {
        match self {
            Instruction::PayInvoice => InstructionView::PayInvoice,
            Instruction::CreateInvoice(inv) => InstructionView::CreateInvoice(inv@),
        }
    }
}

impl PartialEq for Instruction {
    fn eq(&self, o: &Instruction) -> (r: bool) {
        match (self, o) {
            (Instruction::PayInvoice, Instruction::PayInvoice) => true,
            (Instruction::CreateInvoice(a), Instruction::CreateInvoice(b)) => a == b,
            _ => false,
        }
    }
}

impl vstd::std_specs::cmp::PartialEqSpecImpl for Instruction {
    open spec fn obeys_eq_spec() -> bool {
        true
    }

    open spec fn eq_spec(&self, o: &Instruction) -> bool {
        self@ == o@
    }
}

impl Eq for Instruction {

}

/// Tag byte of a payment instruction.
pub const PAY_TAG: u8 = 0;

/// Tag byte of a creation instruction.
pub const CREATE_TAG: u8 = 1;

/// A payload: the tag byte, then for a creation the encoded invoice.
pub open spec fn instruction_encoding(ins: InstructionView) -> Seq<u8> {
    match ins {
        InstructionView::PayInvoice => seq![PAY_TAG],
        InstructionView::CreateInvoice(v) => seq![CREATE_TAG] + encoding(v),
    }
}

/// What a payload decodes to. Decoding is strict: a known tag followed by
/// exactly its fields, with a flag byte of 0 or 1; anything else is
/// `MalformedInstruction`.
pub open spec fn instruction_decoding(s: Seq<u8>) -> Result<InstructionView, InvoiceError> {
    if s.len() == 1 && s[0] == PAY_TAG {
        Ok(InstructionView::PayInvoice)
    } else if s.len() == 1 + INVOICE_LEN && s[0] == CREATE_TAG && decoding(s.drop_first()) is Ok {
        Ok(InstructionView::CreateInvoice(decoding(s.drop_first())->Ok_0))
    } else {
        Err(InvoiceError::MalformedInstruction)
    }
}

/// The payload bytes of an instruction.
pub fn encode_instruction(ins: &Instruction) -> (r: Vec<u8>)
    ensures
        r@ == instruction_encoding(ins@),
{
    match ins {
        Instruction::PayInvoice => {
            let mut out: Vec<u8> = Vec::new();
            out.push(PAY_TAG);
            out
        },
        Instruction::CreateInvoice(inv) => {
            let mut out: Vec<u8> = Vec::new();
            out.push(CREATE_TAG);
            let mut body = encode(inv);
            out.append(&mut body);
            out
        },
    }
}

/// Decodes an instruction payload.
pub fn decode_instruction(data: &[u8]) -> (r: Result<Instruction, InvoiceError>)
    ensures
        match r {
            Ok(ins) => instruction_decoding(data@) == Ok::<InstructionView, InvoiceError>(ins@),
            Err(e) => instruction_decoding(data@) == Err::<InstructionView, InvoiceError>(e),
        },
{
    if data.len() == 1 && data[0] == PAY_TAG {
        return Ok(Instruction::PayInvoice);
    }
    if data.len() != 1 + INVOICE_LEN || data[0] != CREATE_TAG {
        return Err(InvoiceError::MalformedInstruction);
    }
    let mut body: Vec<u8> = Vec::new();
    let mut i: usize = 1;
    while i < data.len()
        invariant
            1 <= i <= data@.len(),
            body@ == data@.subrange(1, i as int),
        decreases data@.len() - i,
    {
        body.push(data[i]);
        i = i + 1;
    }
    assert(body@ =~= data@.drop_first());
    match decode(body.as_slice()) {
        Ok(inv) => Ok(Instruction::CreateInvoice(inv)),
        Err(_) => Err(InvoiceError::MalformedInstruction),
    }
}

/// Decoding the payload of an instruction gives the instruction back.
pub proof fn lemma_instruction_round_trip(ins: InstructionView)
    requires
        ins is CreateInvoice ==> ins->CreateInvoice_0.wf(),
    ensures
        instruction_decoding(instruction_encoding(ins)) == Ok::<InstructionView, InvoiceError>(ins),
{
    if let InstructionView::CreateInvoice(v) = ins {
        lemma_round_trip(v);
        let s = instruction_encoding(ins);
        assert(s.drop_first() =~= encoding(v));
    }
}

} // verus!
