use vstd::prelude::*;

use crate::error::InvoiceError;

verus! {

/// Size in bytes of an encoded invoice record: a 16-byte id, an 8-byte
/// amount, a 1-byte flag and a 32-byte destination.
pub const INVOICE_LEN: usize = 57;

/// The persisted invoice record.
#[derive(Debug, Clone, Copy)]
pub struct Invoice {
    pub id: u128,
    pub amount: u64,
    pub paid: bool,
    pub destination: [u8; 32],
}

/// Mathematical model of an invoice.
pub struct InvoiceView {
    pub id: u128,
    pub amount: u64,
    pub paid: bool,
    pub destination: Seq<u8>,
}

impl View for Invoice {
    type V = InvoiceView;

    open spec fn view(&self) -> InvoiceView {
        InvoiceView {
            id: self.id,
            amount: self.amount,
            paid: self.paid,
            destination: self.destination@,
        }
    }
}

/// Whether two 32-byte keys are the same.
pub fn same_key(a: &[u8; 32], b: &[u8; 32]) -> (r: bool)
    ensures
        r == (a@ == b@),
{
    let mut i: usize = 0;
    while i < 32
        invariant
            i <= 32,
            forall|k: int| 0 <= k < i ==> a@[k] == b@[k],
        decreases 32 - i,
    {
        if a[i] != b[i] {
            return false;
        }
        i = i + 1;
    }
    assert(a@ =~= b@);
    true
}

impl PartialEq for Invoice {
    fn eq(&self, o: &Invoice) -> (r: bool) {
        self.id == o.id && self.amount == o.amount && self.paid == o.paid && same_key(
            &self.destination,
            &o.destination,
        )
    }
}

impl vstd::std_specs::cmp::PartialEqSpecImpl for Invoice {
    open spec fn obeys_eq_spec() -> bool {
        true
    }

    open spec fn eq_spec(&self, o: &Invoice) -> bool {
        self@ == o@
    }
}

impl Eq for Invoice {

}

impl InvoiceView {
    /// The shape of every invoice value: a destination of 32 bytes.
    pub open spec fn wf(self) -> bool {
        self.destination.len() == 32
    }
}

/// `n` bytes of `x`, least significant first (the bytes above `n` are dropped).
pub open spec fn le_bytes(x: nat, n: nat) -> Seq<u8>
    decreases n,
{
    if n == 0 {
        Seq::empty()
    } else {
        seq![(x % 256) as u8] + le_bytes(x / 256, (n - 1) as nat)
    }
}

/// The number whose bytes, least significant first, are `s`.
pub open spec fn le_value(s: Seq<u8>) -> nat
    decreases s.len(),
{
    if s.len() == 0 {
        0
    } else {
        s[0] as nat + 256 * le_value(s.drop_first())
    }
}

pub open spec fn pow256(n: nat) -> nat
    decreases n,
{
    if n == 0 {
        1
    } else {
        256 * pow256((n - 1) as nat)
    }
}

/// The byte that encodes a flag.
pub open spec fn flag_byte(b: bool) -> u8 {
    if b {
        1
    } else {
        0
    }
}

/// The fixed layout of a record: id and amount little-endian, the flag as
/// 0 or 1, then the destination.
pub open spec fn encoding(v: InvoiceView) -> Seq<u8> {
    le_bytes(v.id as nat, 16) + le_bytes(v.amount as nat, 8) + seq![flag_byte(v.paid)]
        + v.destination
}

/// What a buffer decodes to: the first 57 bytes in the layout of `encoding`,
/// or `CorruptRecord` where the buffer is shorter or the flag byte is
/// neither 0 nor 1.
pub open spec fn decoding(s: Seq<u8>) -> Result<InvoiceView, InvoiceError> {
    if s.len() < INVOICE_LEN || s[24] > 1 {
        Err(InvoiceError::CorruptRecord)
    } else {
        Ok(
            InvoiceView {
                id: le_value(s.subrange(0, 16)) as u128,
                amount: le_value(s.subrange(16, 24)) as u64,
                paid: s[24] == 1,
                destination: s.subrange(25, 57),
            },
        )
    }
}

pub(crate) proof fn lemma_le_bytes_len(x: nat, n: nat)
    ensures
        le_bytes(x, n).len() == n,
    decreases n,
{
    if n > 0 {
        lemma_le_bytes_len(x / 256, (n - 1) as nat);
    }
}

proof fn lemma_pow256_pos(n: nat)
    ensures
        pow256(n) > 0,
    decreases n,
{
    if n > 0 {
        lemma_pow256_pos((n - 1) as nat);
    }
}

proof fn lemma_le_value_bound(s: Seq<u8>)
    ensures
        le_value(s) < pow256(s.len()),
    decreases s.len(),
{
    if s.len() > 0 {
        lemma_le_value_bound(s.drop_first());
        let r = le_value(s.drop_first());
        let p = pow256(s.drop_first().len());
        assert(s[0] as nat + 256 * r < 256 * p) by (nonlinear_arith)
            requires
                r < p,
                s[0] < 256,
        ;
    }
}

pub(crate) proof fn lemma_le_round_trip(x: nat, n: nat)
    requires
        x < pow256(n),
    ensures
        le_value(le_bytes(x, n)) == x,
    decreases n,
{
    if n > 0 {
        let p = pow256((n - 1) as nat);
        assert(x / 256 < p) by (nonlinear_arith)
            requires
                x < 256 * p,
        ;
        lemma_le_round_trip(x / 256, (n - 1) as nat);
        let s = le_bytes(x, n);
        assert(s.drop_first() =~= le_bytes(x / 256, (n - 1) as nat));
        assert(x == x % 256 + 256 * (x / 256)) by (nonlinear_arith);
    }
}

proof fn lemma_le_value_bytes(s: Seq<u8>)
    ensures
        le_bytes(le_value(s), s.len()) == s,
    decreases s.len(),
{
    if s.len() > 0 {
        let t = s.drop_first();
        let v = le_value(s);
        let r = le_value(t);
        lemma_le_value_bytes(t);
        assert(v % 256 == s[0] as nat && v / 256 == r) by (nonlinear_arith)
            requires
                v == s[0] as nat + 256 * r,
                s[0] < 256,
        ;
        assert(le_bytes(v, s.len()) =~= s);
    }
}

pub(crate) proof fn lemma_pow256_facts()
    ensures
        pow256(8) == 0x1_0000_0000_0000_0000,
        pow256(16) == 0x1_0000_0000_0000_0000_0000_0000_0000_0000,
{
    reveal_with_fuel(pow256, 17);
}

/// Decoding an encoded invoice gives the invoice back.
pub proof fn lemma_round_trip(v: InvoiceView)
    requires
        v.wf(),
    ensures
        decoding(encoding(v)) == Ok::<InvoiceView, InvoiceError>(v),
        encoding(v).len() == INVOICE_LEN,
{
    let s = encoding(v);
    lemma_le_bytes_len(v.id as nat, 16);
    lemma_le_bytes_len(v.amount as nat, 8);
    lemma_pow256_facts();
    lemma_le_round_trip(v.id as nat, 16);
    lemma_le_round_trip(v.amount as nat, 8);
    assert(s.subrange(0, 16) =~= le_bytes(v.id as nat, 16));
    assert(s.subrange(16, 24) =~= le_bytes(v.amount as nat, 8));
    assert(s.subrange(25, 57) =~= v.destination);
    assert(s[24] == flag_byte(v.paid));
}

/// A record that decodes is the encoding of what it decodes to, followed
/// by whatever came after its first 57 bytes.
pub proof fn lemma_decoding_exact(s: Seq<u8>)
    requires
        decoding(s) is Ok,
    ensures
        encoding(decoding(s)->Ok_0) == s.subrange(0, INVOICE_LEN as int),
        decoding(s)->Ok_0.wf(),
{
    let v = decoding(s)->Ok_0;
    lemma_le_value_bound(s.subrange(0, 16));
    lemma_le_value_bound(s.subrange(16, 24));
    lemma_pow256_facts();
    lemma_le_value_bytes(s.subrange(0, 16));
    lemma_le_value_bytes(s.subrange(16, 24));
    assert(encoding(v) =~= s.subrange(0, INVOICE_LEN as int));
}

/// Appends the `n` low bytes of `x` to `out`, least significant first.
pub(crate) fn push_le(out: &mut Vec<u8>, x: u128, n: usize)
    ensures
        final(out)@ == old(out)@ + le_bytes(x as nat, n as nat),
{
    let mut v: u128 = x;
    let mut i: usize = 0;
    while i < n
        invariant
            i <= n,
            out@ + le_bytes(v as nat, (n - i) as nat) == old(out)@ + le_bytes(x as nat, n as nat),
        decreases n - i,
    {
        let ghost rest = le_bytes(v as nat / 256, (n - i - 1) as nat);
        assert(le_bytes(v as nat, (n - i) as nat) == seq![(v as nat % 256) as u8] + rest);
        let ghost before = out@;
        out.push((v % 256) as u8);
        assert(out@ + rest =~= before + (seq![(v as nat % 256) as u8] + rest));
        v = v / 256;
        i = i + 1;
    }
    assert(out@ + le_bytes(v as nat, 0) =~= out@);
}

/// The number whose `n` bytes, least significant first, start at `start`.
fn read_le(buf: &[u8], start: usize, n: usize) -> (r: u128)
    requires
        n <= 16,
        start + n <= buf@.len(),
    ensures
        r as nat == le_value(buf@.subrange(start as int, start + n)),
{
    proof {
        lemma_pow256_facts();
    }
    let len = buf.len();
    let mut acc: u128 = 0;
    let mut j: usize = n;
    while j > 0
        invariant
            j <= n <= 16,
            start + n <= buf@.len(),
            len == buf@.len(),
            pow256(16) == 0x1_0000_0000_0000_0000_0000_0000_0000_0000,
            acc as nat == le_value(buf@.subrange(start + j, start + n)),
        decreases j,
    {
        let ghost tail = buf@.subrange(start + j, start + n);
        let ghost whole = buf@.subrange(start + j - 1, start + n);
        assert(whole.drop_first() =~= tail);
        proof {
            lemma_le_value_bound(tail);
            lemma_pow_mono((n - j) as nat, 15);
        }
        let b = buf[start + (j - 1)];
        assert(acc * 256 + b < 0x1_0000_0000_0000_0000_0000_0000_0000_0000) by (nonlinear_arith)
            requires
                acc < pow256((n - j) as nat),
                pow256((n - j) as nat) <= pow256(15),
                pow256(16) == 256 * pow256(15),
                pow256(16) == 0x1_0000_0000_0000_0000_0000_0000_0000_0000,
                b < 256,
        ;
        acc = acc * 256 + b as u128;
        j = j - 1;
    }
    acc
}

proof fn lemma_pow_mono(a: nat, b: nat)
    requires
        a <= b,
    ensures
        pow256(a) <= pow256(b),
    decreases b,
{
    if a < b {
        lemma_pow_mono(a, (b - 1) as nat);
    }
}

/// The record bytes of an invoice.
pub fn encode(invoice: &Invoice) -> (r: Vec<u8>)
    ensures
        r@ == encoding(invoice@),
        r@.len() == INVOICE_LEN,
{
    let mut out: Vec<u8> = Vec::new();
    push_le(&mut out, invoice.id, 16);
    push_le(&mut out, invoice.amount as u128, 8);
    if invoice.paid {
        out.push(1);
    } else {
        out.push(0);
    }
    let mut i: usize = 0;
    while i < 32
        invariant
            i <= 32,
            out@ == le_bytes(invoice.id as nat, 16) + le_bytes(invoice.amount as nat, 8) + seq![
                flag_byte(invoice.paid)] + invoice.destination@.subrange(0, i as int),
        decreases 32 - i,
    {
        out.push(invoice.destination[i]);
        i = i + 1;
        assert(out@ == le_bytes(invoice.id as nat, 16) + le_bytes(invoice.amount as nat, 8) + seq![
                flag_byte(invoice.paid)] + invoice.destination@.subrange(0, i as int));
    }
    assert(invoice.destination@.subrange(0, 32) =~= invoice.destination@);
    proof {
        lemma_le_bytes_len(invoice.id as nat, 16);
        lemma_le_bytes_len(invoice.amount as nat, 8);
    }
    out
}

/// Reads an invoice from the first 57 bytes of `buf`.
pub fn decode(buf: &[u8]) -> (r: Result<Invoice, InvoiceError>)
    ensures
        match r {
            Ok(inv) => decoding(buf@) == Ok::<InvoiceView, InvoiceError>(inv@),
            Err(e) => decoding(buf@) == Err::<InvoiceView, InvoiceError>(e),
        },
{
    if buf.len() < INVOICE_LEN || buf[24] > 1 {
        return Err(InvoiceError::CorruptRecord);
    }
    let id = read_le(buf, 0, 16);
    let amount = read_le(buf, 16, 8);
    proof {
        lemma_pow256_facts();
        lemma_le_value_bound(buf@.subrange(16, 24));
    }
    let mut destination: [u8; 32] = [0u8; 32];
    let mut i: usize = 0;
    while i < 32
        invariant
            i <= 32,
            buf@.len() >= INVOICE_LEN,
            forall|k: int| 0 <= k < i ==> destination@[k] == buf@[25 + k],
        decreases 32 - i,
    {
        destination[i] = buf[25 + i];
        i = i + 1;
    }
    assert(destination@ =~= buf@.subrange(25, 57));
    Ok(Invoice { id, amount: amount as u64, paid: buf[24] == 1, destination })
}

} // verus!
