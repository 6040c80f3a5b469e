use vstd::prelude::*;

verus! {

/// Every way an instruction of the invoice program can fail.
#[derive(Debug, Clone, Copy, PartialEq, Eq, Structural)]
pub enum InvoiceError {
    /// The instruction payload does not decode.
    MalformedInstruction,
    /// The caller is not the principal that the operation requires.
    Unauthorized,
    /// A required signature is absent.
    MissingSignature,
    /// The storage account holds no record.
    InvalidRecord,
    /// A destination or capability account is not the one expected.
    InvalidArgument,
    /// The stored bytes do not decode as an invoice.
    CorruptRecord,
    /// A sub-invocation into the ledger failed.
    LedgerFailure,
    /// The invoice is already paid (reported only by the guarded payment).
    AlreadyPaid,
    /// No bump seed gives a valid storage address for the invoice id.
    AddressUnavailable,
    /// Fewer accounts were supplied than the instruction needs.
    NotEnoughAccountKeys,
}

} // verus!
