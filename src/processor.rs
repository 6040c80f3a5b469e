use vstd::prelude::*;

use crate::address::{derive_invoice_address, id_seed, id_seed_bytes, invoice_address, is_system_program, system_program_key};
use crate::codec::{
    decode, decoding, encode, encoding, lemma_decoding_exact, lemma_round_trip, same_key, Invoice,
    InvoiceView, INVOICE_LEN,
};
use crate::error::InvoiceError;
use crate::instruction::{decode_instruction, instruction_decoding, Instruction, InstructionView};

verus! {

/// What the program sees of an account passed to an instruction.
#[derive(Debug)]
pub struct AccountRef {
    pub key: [u8; 32],
    pub is_signer: bool,
    pub data: Vec<u8>,
}

/// A settlement to carry out: move `lamports` from `from` to `to` through
/// the system program, then store `record` in the invoice's account.
#[derive(Debug)]
pub struct PayPlan {
    pub from: [u8; 32],
    pub to: [u8; 32],
    pub lamports: u64,
    pub record: Vec<u8>,
}

/// A creation to carry out: have the system program create `target`, funded
/// by `payer`, with `space` bytes and owned by `owner`, signed for by the
/// program with the seeds `seed` and `[bump]`; then store `record` in it.
#[derive(Debug)]
pub struct CreatePlan {
    pub payer: [u8; 32],
    pub target: [u8; 32],
    pub space: u64,
    pub owner: [u8; 32],
    pub seed: [u8; 16],
    pub bump: u8,
    pub record: Vec<u8>,
}

/// The work that an accepted instruction asks of the ledger.
#[derive(Debug)]
pub enum Plan {
    Pay(PayPlan),
    Create(CreatePlan),
}

/// The invoice after settlement.
pub open spec fn settled(v: InvoiceView) -> InvoiceView {
    InvoiceView { paid: true, ..v }
}

/// The invoice that a payment with these accounts settles, or the error it
/// fails with. The validations come in order: four accounts (payer, storage,
/// destination, system program); a signing payer; a storage account that
/// holds data; the real system program; a record that decodes; a
/// destination equal to the recorded one. Whether the invoice was already
/// paid is not checked.
pub open spec fn pay_outcome(a: Seq<AccountRef>) -> Result<InvoiceView, InvoiceError> {
    if a.len() < 4 {
        Err(InvoiceError::NotEnoughAccountKeys)
    } else if !a[0].is_signer {
        Err(InvoiceError::MissingSignature)
    } else if a[1].data@.len() == 0 {
        Err(InvoiceError::InvalidRecord)
    } else if a[3].key@ != system_program_key() {
        Err(InvoiceError::InvalidArgument)
    } else if decoding(a[1].data@) is Err {
        Err(decoding(a[1].data@)->Err_0)
    } else if a[2].key@ != decoding(a[1].data@)->Ok_0.destination {
        Err(InvoiceError::InvalidArgument)
    } else {
        Ok(decoding(a[1].data@)->Ok_0)
    }
}

/// The plan of a payment whose validations passed on invoice `v`.
pub open spec fn is_pay_plan(p: PayPlan, a: Seq<AccountRef>, v: InvoiceView) -> bool {
    &&& p.from@ == a[0].key@
    &&& p.to@ == a[2].key@
    &&& p.lamports == v.amount
    &&& p.record@ == encoding(settled(v))
}

/// Decides a payment: accounts are payer, storage, destination and system
/// program, in that order.
pub fn pay_invoice(accounts: &[AccountRef]) -> (r: Result<PayPlan, InvoiceError>)
    ensures
        match r {
            Ok(p) => pay_outcome(accounts@) is Ok && is_pay_plan(p, accounts@, pay_outcome(accounts@)->Ok_0),
            Err(e) => pay_outcome(accounts@) == Err::<InvoiceView, InvoiceError>(e),
        },
{
    if accounts.len() < 4 {
        return Err(InvoiceError::NotEnoughAccountKeys);
    }
    let payer = &accounts[0];
    let storage = &accounts[1];
    let destination = &accounts[2];
    let system = &accounts[3];
    if !payer.is_signer {
        return Err(InvoiceError::MissingSignature);
    }
    if storage.data.len() == 0 {
        return Err(InvoiceError::InvalidRecord);
    }
    if !is_system_program(&system.key) {
        return Err(InvoiceError::InvalidArgument);
    }
    let mut invoice = match decode(storage.data.as_slice()) {
        Ok(inv) => inv,
        Err(e) => return Err(e),
    };
    if !same_key(&destination.key, &invoice.destination) {
        return Err(InvoiceError::InvalidArgument);
    }
    let lamports = invoice.amount;
    invoice.paid = true;
    let record = encode(&invoice);
    Ok(PayPlan { from: payer.key, to: destination.key, lamports, record })
}

/// Decides a payment as `pay_invoice` does, but refuses an invoice that is
/// already paid with `AlreadyPaid` once every other validation has passed,
/// so that an invoice is settled at most once.
pub fn pay_invoice_once(accounts: &[AccountRef]) -> (r: Result<PayPlan, InvoiceError>)
    ensures
        pay_outcome(accounts@) is Ok && pay_outcome(accounts@)->Ok_0.paid ==> r == Err::<
            PayPlan,
            InvoiceError,
        >(InvoiceError::AlreadyPaid),
        pay_outcome(accounts@) is Ok && !pay_outcome(accounts@)->Ok_0.paid ==> r is Ok && is_pay_plan(
            r->Ok_0,
            accounts@,
            pay_outcome(accounts@)->Ok_0,
        ),
        pay_outcome(accounts@) is Err ==> r == Err::<PayPlan, InvoiceError>(
            pay_outcome(accounts@)->Err_0,
        ),
{
    let plan = pay_invoice(accounts)?;
    if accounts[1].data[24] == 1 {
        return Err(InvoiceError::AlreadyPaid);
    }
    Ok(plan)
}

/// The storage address and bump seed that a creation with these accounts
/// signs for, or the error it fails with. The validations come in order: four
/// accounts (admin, storage, system program, rent); the admin key equal to
/// `admin_id`; a signing admin; a derivable address.
pub open spec fn create_outcome(
    admin_id: Seq<u8>,
    program_id: Seq<u8>,
    a: Seq<AccountRef>,
    v: InvoiceView,
) -> Result<(Seq<u8>, u8), InvoiceError> {
    if a.len() < 4 {
        Err(InvoiceError::NotEnoughAccountKeys)
    } else if a[0].key@ != admin_id {
        Err(InvoiceError::Unauthorized)
    } else if !a[0].is_signer {
        Err(InvoiceError::MissingSignature)
    } else if invoice_address(v.id, program_id) is None {
        Err(InvoiceError::AddressUnavailable)
    } else {
        Ok(invoice_address(v.id, program_id)->Some_0)
    }
}

/// The plan of a creation whose validations passed with bump seed `bump`.
pub open spec fn is_create_plan(
    p: CreatePlan,
    program_id: Seq<u8>,
    a: Seq<AccountRef>,
    v: InvoiceView,
    bump: u8,
) -> bool {
    &&& p.payer@ == a[0].key@
    &&& p.target@ == a[1].key@
    &&& p.space == INVOICE_LEN
    &&& p.owner@ == program_id
    &&& p.seed@ == id_seed(v.id)
    &&& p.bump == bump
    &&& p.record@ == encoding(v)
}

/// Decides a creation: accounts are admin, storage, system program and rent
/// sysvar, in that order; only `admin_id`, signing, may create.
pub fn create_invoice(
    admin_id: &[u8; 32],
    program_id: &[u8; 32],
    accounts: &[AccountRef],
    invoice: &Invoice,
) -> (r: Result<CreatePlan, InvoiceError>)
    ensures
        match r {
            Ok(p) => create_outcome(admin_id@, program_id@, accounts@, invoice@) is Ok && is_create_plan(
                p,
                program_id@,
                accounts@,
                invoice@,
                create_outcome(admin_id@, program_id@, accounts@, invoice@)->Ok_0.1,
            ),
            Err(e) => create_outcome(admin_id@, program_id@, accounts@, invoice@) == Err::<
                (Seq<u8>, u8),
                InvoiceError,
            >(e),
        },
{
    if accounts.len() < 4 {
        return Err(InvoiceError::NotEnoughAccountKeys);
    }
    let admin = &accounts[0];
    let storage = &accounts[1];
    if !same_key(&admin.key, admin_id) {
        return Err(InvoiceError::Unauthorized);
    }
    if !admin.is_signer {
        return Err(InvoiceError::MissingSignature);
    }
    let bump = match derive_invoice_address(invoice.id, program_id) {
        Some((_, b)) => b,
        None => return Err(InvoiceError::AddressUnavailable),
    };
    let seed = id_seed_bytes(invoice.id);
    let record = encode(invoice);
    Ok(
        CreatePlan {
            payer: admin.key,
            target: storage.key,
            space: INVOICE_LEN as u64,
            owner: *program_id,
            seed,
            bump,
            record,
        },
    )
}

/// Decodes an instruction payload and decides it.
pub fn process_instruction(
    admin_id: &[u8; 32],
    program_id: &[u8; 32],
    accounts: &[AccountRef],
    data: &[u8],
) -> (r: Result<Plan, InvoiceError>)
    ensures
        instruction_decoding(data@) is Err ==> r == Err::<Plan, InvoiceError>(
            instruction_decoding(data@)->Err_0,
        ),
        instruction_decoding(data@) == Ok::<InstructionView, InvoiceError>(InstructionView::PayInvoice)
            ==> match r {
            Ok(Plan::Pay(p)) => pay_outcome(accounts@) is Ok && is_pay_plan(
                p,
                accounts@,
                pay_outcome(accounts@)->Ok_0,
            ),
            Ok(Plan::Create(_)) => false,
            Err(e) => pay_outcome(accounts@) == Err::<InvoiceView, InvoiceError>(e),
        },
        ({
            let d = instruction_decoding(data@);
            let v = d->Ok_0->CreateInvoice_0;
            let c = create_outcome(admin_id@, program_id@, accounts@, v);
            d is Ok && d->Ok_0 is CreateInvoice ==> match r {
                Ok(Plan::Create(p)) => c is Ok && is_create_plan(p, program_id@, accounts@, v, c->Ok_0.1),
                Ok(Plan::Pay(_)) => false,
                Err(e) => c == Err::<(Seq<u8>, u8), InvoiceError>(e),
            }
        }),
{
    match decode_instruction(data) {
        Err(e) => Err(e),
        Ok(Instruction::PayInvoice) => match pay_invoice(accounts) {
            Ok(p) => Ok(Plan::Pay(p)),
            Err(e) => Err(e),
        },
        Ok(Instruction::CreateInvoice(invoice)) => match create_invoice(
            admin_id,
            program_id,
            accounts,
            &invoice,
        ) {
            Ok(p) => Ok(Plan::Create(p)),
            Err(e) => Err(e),
        },
    }
}

/// Completes a planned instruction once its sub-invocation has run: where
/// it failed, the failure is reported and `data` is left as it was; where
/// it succeeded, `record` is written over the start of `data`, which must be
/// large enough to hold it.
pub fn commit_record(data: &mut [u8], record: &[u8], sub_invocation_succeeded: bool) -> (r: Result<
    (),
    InvoiceError,
>)
    ensures
        !sub_invocation_succeeded ==> r == Err::<(), InvoiceError>(InvoiceError::LedgerFailure),
        sub_invocation_succeeded && old(data)@.len() < record@.len() ==> r == Err::<(), InvoiceError>(
            InvoiceError::InvalidRecord,
        ),
        r is Err ==> final(data)@ == old(data)@,
        r is Ok ==> final(data)@ == record@ + old(data)@.subrange(
            record@.len() as int,
            old(data)@.len() as int,
        ),
        r is Ok <==> sub_invocation_succeeded && record@.len() <= old(data)@.len(),
{
    if !sub_invocation_succeeded {
        return Err(InvoiceError::LedgerFailure);
    }
    if data.len() < record.len() {
        return Err(InvoiceError::InvalidRecord);
    }
    let n = record.len();
    let mut i: usize = 0;
    while i < n
        invariant
            i <= n == record@.len() <= data@.len(),
            data@.len() == old(data)@.len(),
            forall|k: int| 0 <= k < i ==> data@[k] == record@[k],
            forall|k: int| i <= k < data@.len() ==> data@[k] == old(data)@[k],
        decreases n - i,
    {
        data[i] = record[i];
        i = i + 1;
    }
    assert(data@ =~= record@ + old(data)@.subrange(record@.len() as int, old(data)@.len() as int));
    Ok(())
}

/// Only the configured admin, signing, can create an invoice: any other key
/// is refused as unauthorized, and the admin's key without a signature is
/// refused for the missing signature. A refusal yields no plan, so no
/// account is created.
pub proof fn lemma_create_needs_signing_admin(
    admin_id: Seq<u8>,
    program_id: Seq<u8>,
    a: Seq<AccountRef>,
    v: InvoiceView,
)
    requires
        a.len() >= 4,
    ensures
        a[0].key@ != admin_id ==> create_outcome(admin_id, program_id, a, v) == Err::<
            (Seq<u8>, u8),
            InvoiceError,
        >(InvoiceError::Unauthorized),
        a[0].key@ == admin_id && !a[0].is_signer ==> create_outcome(admin_id, program_id, a, v)
            == Err::<(Seq<u8>, u8), InvoiceError>(InvoiceError::MissingSignature),
{
}

/// A payment whose destination account is not the recorded destination is
/// refused with `InvalidArgument`, so nothing is transferred or written.
pub proof fn lemma_pay_needs_recorded_destination(a: Seq<AccountRef>)
    requires
        a.len() >= 4,
        a[0].is_signer,
        a[1].data@.len() > 0,
        a[3].key@ == system_program_key(),
        decoding(a[1].data@) is Ok,
        a[2].key@ != decoding(a[1].data@)->Ok_0.destination,
    ensures
        pay_outcome(a) == Err::<InvoiceView, InvoiceError>(InvoiceError::InvalidArgument),
{
}

/// A signed payment against a storage account without data is refused with
/// `InvalidRecord`, so nothing is transferred.
pub proof fn lemma_pay_needs_record(a: Seq<AccountRef>)
    requires
        a.len() >= 4,
        a[0].is_signer,
        a[1].data@.len() == 0,
    ensures
        pay_outcome(a) == Err::<InvoiceView, InvoiceError>(InvoiceError::InvalidRecord),
{
}

/// Paying an invoice that is already paid is accepted again: with the
/// settled record in storage and the same payer, destination and system
/// program, the second payment moves the same amount once more and leaves
/// the same settled record.
pub proof fn lemma_second_payment_repeats(a: Seq<AccountRef>, b: Seq<AccountRef>)
    requires
        pay_outcome(a) is Ok,
        b.len() >= 4,
        b[0].is_signer == a[0].is_signer,
        b[1].data@ == encoding(settled(pay_outcome(a)->Ok_0)),
        b[2].key@ == a[2].key@,
        b[3].key@ == a[3].key@,
    ensures
        pay_outcome(b) == Ok::<InvoiceView, InvoiceError>(settled(pay_outcome(a)->Ok_0)),
        settled(pay_outcome(a)->Ok_0).amount == pay_outcome(a)->Ok_0.amount,
        settled(settled(pay_outcome(a)->Ok_0)) == settled(pay_outcome(a)->Ok_0),
{
    let v = pay_outcome(a)->Ok_0;
    lemma_decoding_exact(a[1].data@);
    lemma_round_trip(settled(v));
}

} // verus!
