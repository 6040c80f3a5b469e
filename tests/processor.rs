use invoice_program::address::derive_invoice_address;
use invoice_program::codec::{decode, encode, Invoice};
use invoice_program::error::InvoiceError;
use invoice_program::instruction::{encode_instruction, Instruction};
use invoice_program::processor::{
    commit_record, create_invoice, pay_invoice, pay_invoice_once, process_instruction, AccountRef, Plan,
};

const ADMIN: [u8; 32] = [0xad; 32];
const PROGRAM: [u8; 32] = [0x42; 32];
const PAYER: [u8; 32] = [0x11; 32];
const STORAGE: [u8; 32] = [0x22; 32];
const DEST: [u8; 32] = [0x33; 32];
const SYSTEM: [u8; 32] = [0u8; 32];
const RENT: [u8; 32] = [0x44; 32];

fn account(key: [u8; 32], is_signer: bool, data: Vec<u8>) -> AccountRef {
    AccountRef { key, is_signer, data }
}

fn invoice() -> Invoice {
    Invoice { id: 1, amount: 1000, paid: false, destination: DEST }
}

fn pay_accounts(record: Vec<u8>) -> Vec<AccountRef> {
    vec![
        account(PAYER, true, vec![]),
        account(STORAGE, false, record),
        account(DEST, false, vec![]),
        account(SYSTEM, false, vec![]),
    ]
}

fn create_accounts(admin: [u8; 32], signer: bool) -> Vec<AccountRef> {
    vec![
        account(admin, signer, vec![]),
        account(STORAGE, false, vec![]),
        account(SYSTEM, false, vec![]),
        account(RENT, false, vec![]),
    ]
}

#[test]
fn create_by_other_identity_is_unauthorized() {
    for other in [[0u8; 32], PAYER, [0xac; 32]] {
        let r = create_invoice(&ADMIN, &PROGRAM, &create_accounts(other, true), &invoice());
        assert_eq!(r.unwrap_err(), InvoiceError::Unauthorized);
    }
}

#[test]
fn create_by_unsigned_admin_is_missing_signature() {
    let r = create_invoice(&ADMIN, &PROGRAM, &create_accounts(ADMIN, false), &invoice());
    assert_eq!(r.unwrap_err(), InvoiceError::MissingSignature);
}

#[test]
fn create_with_unsigned_other_identity_is_unauthorized() {
    let r = create_invoice(&ADMIN, &PROGRAM, &create_accounts(PAYER, false), &invoice());
    assert_eq!(r.unwrap_err(), InvoiceError::Unauthorized);
}

#[test]
fn create_with_too_few_accounts_fails() {
    let mut accounts = create_accounts(ADMIN, true);
    accounts.pop();
    let r = create_invoice(&ADMIN, &PROGRAM, &accounts, &invoice());
    assert_eq!(r.unwrap_err(), InvoiceError::NotEnoughAccountKeys);
}

#[test]
fn create_plans_funded_signed_account() {
    let plan = create_invoice(&ADMIN, &PROGRAM, &create_accounts(ADMIN, true), &invoice()).unwrap();
    let (_, bump) = derive_invoice_address(1, &PROGRAM).unwrap();
    assert_eq!(plan.payer, ADMIN);
    assert_eq!(plan.target, STORAGE);
    assert_eq!(plan.space, 57);
    assert_eq!(plan.owner, PROGRAM);
    assert_eq!(plan.seed, 1u128.to_be_bytes());
    assert_eq!(plan.bump, bump);
    assert_eq!(plan.record, encode(&invoice()));
}

#[test]
fn settlement_moves_amount_and_marks_paid() {
    let plan = pay_invoice(&pay_accounts(encode(&invoice()))).unwrap();
    assert_eq!(plan.from, PAYER);
    assert_eq!(plan.to, DEST);
    assert_eq!(plan.lamports, 1000);
    let mut storage = encode(&invoice());
    assert_eq!(commit_record(&mut storage, &plan.record, true), Ok(()));
    assert_eq!(
        decode(&storage),
        Ok(Invoice { id: 1, amount: 1000, paid: true, destination: DEST })
    );
}

#[test]
fn second_payment_transfers_again() {
    let paid = Invoice { paid: true, ..invoice() };
    let plan = pay_invoice(&pay_accounts(encode(&paid))).unwrap();
    assert_eq!(plan.lamports, 1000);
    assert_eq!(plan.to, DEST);
    assert_eq!(decode(&plan.record), Ok(paid));
}

#[test]
fn wrong_destination_is_invalid_argument() {
    let mut accounts = pay_accounts(encode(&invoice()));
    accounts[2].key = [0x34; 32];
    assert_eq!(pay_invoice(&accounts).unwrap_err(), InvoiceError::InvalidArgument);
}

#[test]
fn empty_storage_is_invalid_record() {
    assert_eq!(pay_invoice(&pay_accounts(vec![])).unwrap_err(), InvoiceError::InvalidRecord);
}

#[test]
fn unsigned_payer_is_missing_signature() {
    let mut accounts = pay_accounts(encode(&invoice()));
    accounts[0].is_signer = false;
    assert_eq!(pay_invoice(&accounts).unwrap_err(), InvoiceError::MissingSignature);
}

#[test]
fn lookalike_system_program_is_invalid_argument() {
    let mut accounts = pay_accounts(encode(&invoice()));
    accounts[3].key = [9; 32];
    assert_eq!(pay_invoice(&accounts).unwrap_err(), InvoiceError::InvalidArgument);
}

#[test]
fn undecodable_record_is_corrupt() {
    let mut record = encode(&invoice());
    record[24] = 7;
    assert_eq!(pay_invoice(&pay_accounts(record)).unwrap_err(), InvoiceError::CorruptRecord);
    assert_eq!(pay_invoice(&pay_accounts(vec![1, 2, 3])).unwrap_err(), InvoiceError::CorruptRecord);
}

#[test]
fn pay_with_too_few_accounts_fails() {
    let mut accounts = pay_accounts(encode(&invoice()));
    accounts.truncate(3);
    assert_eq!(pay_invoice(&accounts).unwrap_err(), InvoiceError::NotEnoughAccountKeys);
}

#[test]
fn failed_creation_leaves_existing_record() {
    let existing = encode(&Invoice { id: 1, amount: 5, paid: true, destination: [1; 32] });
    let mut storage = existing.clone();
    let plan = create_invoice(&ADMIN, &PROGRAM, &create_accounts(ADMIN, true), &invoice()).unwrap();
    assert_eq!(commit_record(&mut storage, &plan.record, false), Err(InvoiceError::LedgerFailure));
    assert_eq!(storage, existing);
}

#[test]
fn commit_into_short_buffer_fails() {
    let mut storage = vec![0u8; 10];
    assert_eq!(commit_record(&mut storage, &encode(&invoice()), true), Err(InvoiceError::InvalidRecord));
    assert_eq!(storage, vec![0u8; 10]);
}

#[test]
fn commit_writes_over_start_of_buffer() {
    let mut storage = vec![9u8; 60];
    let record = encode(&invoice());
    assert_eq!(commit_record(&mut storage, &record, true), Ok(()));
    assert_eq!(&storage[..57], &record[..]);
    assert_eq!(&storage[57..], &[9u8, 9, 9]);
}

#[test]
fn dispatch_routes_payment() {
    let data = encode_instruction(&Instruction::PayInvoice);
    match process_instruction(&ADMIN, &PROGRAM, &pay_accounts(encode(&invoice())), &data) {
        Ok(Plan::Pay(p)) => assert_eq!(p.lamports, 1000),
        other => panic!("unexpected {:?}", other),
    }
}

#[test]
fn dispatch_routes_creation() {
    let data = encode_instruction(&Instruction::CreateInvoice(invoice()));
    match process_instruction(&ADMIN, &PROGRAM, &create_accounts(ADMIN, true), &data) {
        Ok(Plan::Create(p)) => assert_eq!(p.record, encode(&invoice())),
        other => panic!("unexpected {:?}", other),
    }
    let r = process_instruction(&ADMIN, &PROGRAM, &create_accounts(PAYER, true), &data);
    assert_eq!(r.unwrap_err(), InvoiceError::Unauthorized);
}

#[test]
fn dispatch_refuses_malformed_payload() {
    let r = process_instruction(&ADMIN, &PROGRAM, &pay_accounts(encode(&invoice())), &[7, 1]);
    assert_eq!(r.unwrap_err(), InvoiceError::MalformedInstruction);
    let r = process_instruction(&ADMIN, &PROGRAM, &[], &[]);
    assert_eq!(r.unwrap_err(), InvoiceError::MalformedInstruction);
}

#[test]
fn guarded_payment_settles_unpaid_invoice() {
    let plan = pay_invoice_once(&pay_accounts(encode(&invoice()))).unwrap();
    assert_eq!(plan.lamports, 1000);
    assert_eq!(decode(&plan.record), Ok(Invoice { paid: true, ..invoice() }));
}

#[test]
fn guarded_payment_refuses_paid_invoice() {
    let paid = Invoice { paid: true, ..invoice() };
    assert_eq!(pay_invoice_once(&pay_accounts(encode(&paid))).unwrap_err(), InvoiceError::AlreadyPaid);
    assert_eq!(pay_invoice_once(&pay_accounts(vec![])).unwrap_err(), InvoiceError::InvalidRecord);
}
