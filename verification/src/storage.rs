//! The storage-proof request kind: a proof of a storage slot's value, keyed
//! by block hash, account-address hash and storage-key hash.

use vstd::prelude::*;
use crate::field::Field;
use crate::field::FieldV;
use crate::field::Hash256;
use crate::field::NoSuchOutput;
use crate::field::Output;
use crate::field::OutputKind;
use crate::field::OutputV;
use crate::field::adjust_field;
use crate::field::output_kind;
use crate::mapping::IndexMapping;
use crate::mapping::map_lookup;
use crate::tables::DeclTable;
use crate::tables::OutputTable;
use crate::tables::decl_ok;

verus! {

/// Potentially incomplete request for a storage proof.
#[derive(Debug, PartialEq, Eq)]
pub struct IncompleteRequest {
    /// Block hash to request the state proof for.
    pub block_hash: Field<Hash256>,
    /// Hash of the account's address.
    pub address_hash: Field<Hash256>,
    /// Hash of the storage key.
    pub key_hash: Field<Hash256>,
}

/// The mathematical value of an [`IncompleteRequest`].
#[verifier::ext_equal]
pub struct IncompleteRequestV {
    pub block_hash: FieldV<Seq<u8>>,
    pub address_hash: FieldV<Seq<u8>>,
    pub key_hash: FieldV<Seq<u8>>,
}

impl View for IncompleteRequest {
    type V = IncompleteRequestV;

    open spec fn view(&self) -> IncompleteRequestV {
        IncompleteRequestV {
            block_hash: self.block_hash@,
            address_hash: self.address_hash@,
            key_hash: self.key_hash@,
        }
    }
}

/// A complete request for a storage proof.
#[derive(Debug, Clone, PartialEq, Eq)]
pub struct CompleteRequest {
    /// Block hash to request the state proof for.
    pub block_hash: Hash256,
    /// Hash of the account's address.
    pub address_hash: Hash256,
    /// Hash of the storage key.
    pub key_hash: Hash256,
}

/// The mathematical value of a [`CompleteRequest`].
#[verifier::ext_equal]
pub struct CompleteRequestV {
    pub block_hash: Seq<u8>,
    pub address_hash: Seq<u8>,
    pub key_hash: Seq<u8>,
}

impl View for CompleteRequest {
    type V = CompleteRequestV;

    open spec fn view(&self) -> CompleteRequestV {
        CompleteRequestV {
            block_hash: self.block_hash@,
            address_hash: self.address_hash@,
            key_hash: self.key_hash@,
        }
    }
}

/// The reply to a storage-proof request.
#[derive(Debug, Clone, PartialEq, Eq)]
pub struct Response {
    /// Inclusion/exclusion proof: a list of opaque byte strings.
    pub proof_nodes: Vec<Vec<u8>>,
    /// Storage value.
    pub value: Hash256,
}

/// The mathematical value of a [`Response`].
#[verifier::ext_equal]
pub struct ResponseV {
    pub proof_nodes: Seq<Seq<u8>>,
    pub value: Seq<u8>,
}

impl View for Response {
    type V = ResponseV;

    open spec fn view(&self) -> ResponseV {
        ResponseV {
            proof_nodes: self.proof_nodes@.map_values(|node: Vec<u8>| node@),
            value: self.value@,
        }
    }
}

/// Whether a hash-expecting slot's back-reference is satisfied by `decls`
/// from position `own`: the referenced request exists, stands strictly
/// earlier in the batch, and declares a hash output at that index. A scalar
/// slot is always satisfied.
pub open spec fn hash_ref_ok(f: FieldV<Seq<u8>>, decls: Seq<Seq<OutputKind>>, own: int) -> bool {
    f matches FieldV::BackReference(req, idx) ==> {
        &&& req < own
        &&& decl_ok(decls, req, idx, OutputKind::Hash)
    }
}

/// Whether every back-reference of the request is satisfied by `decls` from
/// position `own`.
pub open spec fn request_refs_ok(
    r: IncompleteRequestV,
    decls: Seq<Seq<OutputKind>>,
    own: int,
) -> bool {
    &&& hash_ref_ok(r.block_hash, decls, own)
    &&& hash_ref_ok(r.address_hash, decls, own)
    &&& hash_ref_ok(r.key_hash, decls, own)
}

/// One resolution step of a hash-expecting slot against the output table:
/// a back-reference whose target is registered and is a hash becomes that
/// scalar; any other slot is left unchanged.
pub open spec fn fill_hash_field(f: FieldV<Seq<u8>>, tbl: Seq<Seq<OutputV>>) -> FieldV<Seq<u8>> {
    match f {
        FieldV::Scalar(_) => f,
        FieldV::BackReference(req, idx) => {
            if 0 <= req < tbl.len() && 0 <= idx < tbl[req].len() {
                match tbl[req][idx] {
                    OutputV::Hash(h) => FieldV::Scalar(h),
                    OutputV::Number(_) => f,
                }
            } else {
                f
            }
        },
    }
}

/// One resolution pass of the whole request against the output table.
pub open spec fn fill_request(r: IncompleteRequestV, tbl: Seq<Seq<OutputV>>) -> IncompleteRequestV {
    IncompleteRequestV {
        block_hash: fill_hash_field(r.block_hash, tbl),
        address_hash: fill_hash_field(r.address_hash, tbl),
        key_hash: fill_hash_field(r.key_hash, tbl),
    }
}

/// Whether every slot of the request holds a scalar.
pub open spec fn all_scalar(r: IncompleteRequestV) -> bool {
    &&& r.block_hash is Scalar
    &&& r.address_hash is Scalar
    &&& r.key_hash is Scalar
}

/// The scalar a resolved slot holds.
pub open spec fn scalar_of(f: FieldV<Seq<u8>>) -> Seq<u8>
    recommends
        f is Scalar,
{
    match f {
        FieldV::Scalar(v) => v,
        FieldV::BackReference(_, _) => Seq::empty(),
    }
}

/// The complete form of a fully resolved request.
pub open spec fn completed_request(r: IncompleteRequestV) -> CompleteRequestV
    recommends
        all_scalar(r),
{
    CompleteRequestV {
        block_hash: scalar_of(r.block_hash),
        address_hash: scalar_of(r.address_hash),
        key_hash: scalar_of(r.key_hash),
    }
}

/// The positions (0: block hash, 1: address hash, 2: key hash) of the slots
/// that hold a scalar.
pub open spec fn resolved_fields(r: IncompleteRequestV) -> Set<int> {
    Set::new(
        |i: int|
            {
                ||| i == 0 && r.block_hash is Scalar
                ||| i == 1 && r.address_hash is Scalar
                ||| i == 2 && r.key_hash is Scalar
            },
    )
}

/// Every back-reference's request index rewritten through the mapping.
pub open spec fn adjust_request(r: IncompleteRequestV, m: Seq<usize>) -> IncompleteRequestV {
    IncompleteRequestV {
        block_hash: adjust_field(r.block_hash, m),
        address_hash: adjust_field(r.address_hash, m),
        key_hash: adjust_field(r.key_hash, m),
    }
}

/// The output kinds a storage-proof request declares for its own response:
/// one hash (the storage value), at output index 0.
pub open spec fn declared_outputs() -> Seq<OutputKind> {
    seq![OutputKind::Hash]
}

/// The outputs a storage-proof response exposes, in output-index order:
/// its storage value, at output index 0.
pub open spec fn response_outputs(r: ResponseV) -> Seq<OutputV> {
    seq![OutputV::Hash(r.value)]
}

/// Whether one hash-expecting slot's back-reference is satisfied by `decls`
/// from position `own`.
fn check_hash_ref(f: &Field<Hash256>, decls: &DeclTable, own: usize) -> (r: bool)
    ensures
        r == hash_ref_ok(f@, decls@, own as int),
{
    match f {
        Field::Scalar(_) => true,
        Field::BackReference(req, idx) => *req < own && decls.declares(
            *req,
            *idx,
            OutputKind::Hash,
        ),
    }
}

/// One resolution step of a hash-expecting slot against the output table.
fn fill_hash(f: &mut Field<Hash256>, oracle: &OutputTable)
    ensures
        final(f)@ == fill_hash_field(old(f)@, oracle@),
{
    let target = match &*f {
        Field::BackReference(req, idx) => (*req, *idx),
        Field::Scalar(_) => {
            return ;
        },
    };
    match oracle.lookup(target.0, target.1) {
        Ok(Output::Hash(h)) => {
            *f = Field::Scalar(h);
        },
        _ => {},
    }
}

impl Clone for IncompleteRequest {
    fn clone(&self) -> (r: Self)
        ensures
            r@ == self@,
    {
        let r = IncompleteRequest {
            block_hash: self.block_hash.clone(),
            address_hash: self.address_hash.clone(),
            key_hash: self.key_hash.clone(),
        };
        proof {
            assert(r@ =~= self@);
        }
        r
    }
}

impl IncompleteRequest {
    /// Validates every back-reference against the declaration table, given
    /// the request's own position in the batch: each referenced request must
    /// exist, stand strictly earlier, and declare a hash output at the
    /// referenced index. Succeeds if and only if all three slots pass; the
    /// sub-cases of a failure are reported identically. Performs no
    /// mutation.
    pub fn check_outputs(&self, decls: &DeclTable, own_index: usize) -> (r: Result<
        (),
        NoSuchOutput,
    >)
        ensures
            r is Ok <==> request_refs_ok(self@, decls@, own_index as int),
    {
        if !check_hash_ref(&self.block_hash, decls, own_index) {
            return Err(NoSuchOutput);
        }
        if !check_hash_ref(&self.address_hash, decls, own_index) {
            return Err(NoSuchOutput);
        }
        if !check_hash_ref(&self.key_hash, decls, own_index) {
            return Err(NoSuchOutput);
        }
        Ok(())
    }

    /// The output kinds this request's own eventual response will expose,
    /// in output-index order — independent of whether the request itself is
    /// resolved yet.
    pub fn note_outputs(&self) -> (r: Vec<OutputKind>)
        ensures
            r@ == declared_outputs(),
    {
        let mut kinds: Vec<OutputKind> = Vec::new();
        kinds.push(OutputKind::Hash);
        proof {
            assert(kinds@ =~= declared_outputs());
        }
        kinds
    }

    /// Best-effort resolution: each back-reference whose target is
    /// registered in the table and is a hash becomes that scalar; every
    /// other slot is left unchanged. Never errors; idempotent and
    /// monotonic.
    pub fn fill(&mut self, oracle: &OutputTable)
        ensures
            final(self)@ == fill_request(old(self)@, oracle@),
    {
        fill_hash(&mut self.block_hash, oracle);
        fill_hash(&mut self.address_hash, oracle);
        fill_hash(&mut self.key_hash, oracle);
        proof {
            assert(self@ =~= fill_request(old(self)@, oracle@));
        }
    }

    /// The hard completion gate: yields the complete form if and only if
    /// every slot holds a scalar, and fails with `NoSuchOutput` otherwise.
    pub fn complete(self) -> (r: Result<CompleteRequest, NoSuchOutput>)
        ensures
            r is Ok <==> all_scalar(self@),
            r matches Ok(c) ==> c@ == completed_request(self@),
    {
        let ghost before = self@;
        let block_hash = self.block_hash.into_scalar()?;
        let address_hash = self.address_hash.into_scalar()?;
        let key_hash = self.key_hash.into_scalar()?;
        let c = CompleteRequest { block_hash, address_hash, key_hash };
        proof {
            assert(c@ =~= completed_request(before));
        }
        Ok(c)
    }

    /// Rewrites every back-reference's request index through the mapping,
    /// leaving scalar slots untouched.
    pub fn adjust_refs(&mut self, mapping: &IndexMapping)
        ensures
            final(self)@ == adjust_request(old(self)@, mapping@),
    {
        self.block_hash.adjust_req(mapping);
        self.address_hash.adjust_req(mapping);
        self.key_hash.adjust_req(mapping);
        proof {
            assert(self@ =~= adjust_request(old(self)@, mapping@));
        }
    }
}

impl Response {
    /// The outputs this response exposes for later requests, in
    /// output-index order: its storage value, at output index 0.
    pub fn fill_outputs(&self) -> (r: Vec<Output>)
        ensures
            r@.map_values(|o: Output| o@) == response_outputs(self@),
    {
        let mut outputs: Vec<Output> = Vec::new();
        outputs.push(Output::Hash(self.value.clone()));
        proof {
            assert(outputs@.map_values(|o: Output| o@) =~= response_outputs(self@));
        }
        outputs
    }
}

/// Resolution is idempotent: a second pass against the same output table
/// changes nothing.
pub proof fn lemma_fill_idempotent(r: IncompleteRequestV, tbl: Seq<Seq<OutputV>>)
    ensures
        fill_request(fill_request(r, tbl), tbl) == fill_request(r, tbl),
{
    assert(fill_request(fill_request(r, tbl), tbl) =~= fill_request(r, tbl));
}

/// Resolution is monotonic: a pass can only move slots from unresolved to
/// resolved, never the reverse.
pub proof fn lemma_fill_monotonic(r: IncompleteRequestV, tbl: Seq<Seq<OutputV>>)
    ensures
        resolved_fields(r).subset_of(resolved_fields(fill_request(r, tbl))),
{
    assert forall|i: int|
        resolved_fields(r).contains(i) implies resolved_fields(
        fill_request(r, tbl),
    ).contains(i) by {}
}

/// Remapping through the identity mapping leaves the request unchanged.
pub proof fn lemma_adjust_identity(r: IncompleteRequestV, m: Seq<usize>)
    requires
        forall|i: int| map_lookup(m, i) == i,
    ensures
        adjust_request(r, m) == r,
{
    assert(adjust_request(r, m) =~= r);
}

/// Remapping twice equals remapping once through the composed mapping.
pub proof fn lemma_adjust_compose(
    r: IncompleteRequestV,
    m1: Seq<usize>,
    m2: Seq<usize>,
    mc: Seq<usize>,
)
    requires
        forall|i: int| map_lookup(mc, i) == map_lookup(m2, map_lookup(m1, i)),
    ensures
        adjust_request(adjust_request(r, m1), m2) == adjust_request(r, mc),
{
    assert(adjust_request(adjust_request(r, m1), m2) =~= adjust_request(r, mc));
}

/// The outputs a response exposes carry exactly the kinds the request kind
/// declares, in the same order.
pub proof fn lemma_outputs_match_declaration(r: ResponseV)
    ensures
        response_outputs(r).map_values(|o: OutputV| output_kind(o)) == declared_outputs(),
{
    assert(response_outputs(r).map_values(|o: OutputV| output_kind(o)) =~= declared_outputs());
}

} // verus!
