//! The batch owned by the scheduler: an ordered sequence of incomplete
//! requests, the outputs each declares, and the outputs registered from
//! responses so far.

use vstd::prelude::*;
use crate::field::NoSuchOutput;
use crate::field::Output;
use crate::field::OutputKind;
use crate::field::OutputV;
use crate::mapping::IndexMapping;
use crate::storage::CompleteRequest;
use crate::storage::IncompleteRequest;
use crate::storage::IncompleteRequestV;
use crate::storage::adjust_request;
use crate::storage::all_scalar;
use crate::storage::completed_request;
use crate::storage::declared_outputs;
use crate::storage::fill_request;
use crate::storage::request_refs_ok;
use crate::tables::DeclTable;
use crate::tables::OutputTable;

verus! {

/// The mathematical value of a [`Batch`].
#[verifier::ext_equal]
pub struct BatchV {
    pub requests: Seq<IncompleteRequestV>,
    pub decls: Seq<Seq<OutputKind>>,
    pub outputs: Seq<Seq<OutputV>>,
}

/// An in-flight batch: the requests in send order, the declaration table
/// they were validated against, and the output table grown from their
/// responses.
#[derive(Debug)]
pub struct Batch {
    requests: Vec<IncompleteRequest>,
    decls: DeclTable,
    outputs: OutputTable,
}

impl View for Batch {
    type V = BatchV;

    closed spec fn view(&self) -> BatchV {
        BatchV {
            requests: self.requests@.map_values(|r: IncompleteRequest| r@),
            decls: self.decls@,
            outputs: self.outputs@,
        }
    }
}

impl Batch {
    /// An empty batch.
    pub fn new() -> (r: Self)
        ensures
            r@.requests.len() == 0,
            r@.decls.len() == 0,
            r@.outputs.len() == 0,
    {
        let r = Batch { requests: Vec::new(), decls: DeclTable::new(), outputs: OutputTable::new() };
        proof {
            assert(r@.requests =~= Seq::<IncompleteRequestV>::empty());
        }
        r
    }

    /// How many requests the batch holds.
    pub fn len(&self) -> (n: usize)
        ensures
            n == self@.requests.len(),
    {
        self.requests.len()
    }

    /// Validates the request's back-references against what the batch's
    /// earlier entries declare, and appends it, together with its own
    /// declared outputs, if and only if they all pass; a failing request
    /// leaves the batch unchanged.
    pub fn push_request(&mut self, req: IncompleteRequest) -> (r: Result<(), NoSuchOutput>)
        ensures
            r is Ok <==> request_refs_ok(req@, old(self)@.decls, old(self)@.requests.len() as int),
            r is Ok ==> final(self)@ == (BatchV {
                requests: old(self)@.requests.push(req@),
                decls: old(self)@.decls.push(declared_outputs()),
                outputs: old(self)@.outputs,
            }),
            r is Err ==> final(self)@ == old(self)@,
    {
        match req.check_outputs(&self.decls, self.requests.len()) {
            Ok(_) => {
                let kinds = req.note_outputs();
                self.decls.push_request(kinds);
                self.requests.push(req);
                proof {
                    assert(self@ =~= (BatchV {
                        requests: old(self)@.requests.push(self.requests@[
                            self.requests@.len() - 1
                        ]@),
                        decls: old(self)@.decls.push(declared_outputs()),
                        outputs: old(self)@.outputs,
                    }));
                }
                Ok(())
            },
            Err(e) => Err(e),
        }
    }

    /// Registers the outputs exposed by the next response, in request
    /// order.
    pub fn register_response(&mut self, outputs: Vec<Output>)
        ensures
            final(self)@ == (BatchV {
                requests: old(self)@.requests,
                decls: old(self)@.decls,
                outputs: old(self)@.outputs.push(outputs@.map_values(|o: Output| o@)),
            }),
    {
        self.outputs.register_response(outputs);
        proof {
            assert(self@ =~= (BatchV {
                requests: old(self)@.requests,
                decls: old(self)@.decls,
                outputs: old(self)@.outputs.push(outputs@.map_values(|o: Output| o@)),
            }));
        }
    }

    /// Offers every request one resolution pass against the outputs
    /// registered so far.
    pub fn fill_all(&mut self)
        ensures
            final(self)@.requests == old(self)@.requests.map_values(
                |rv: IncompleteRequestV| fill_request(rv, old(self)@.outputs),
            ),
            final(self)@.decls == old(self)@.decls,
            final(self)@.outputs == old(self)@.outputs,
    {
        let n = self.requests.len();
        let mut updated: Vec<IncompleteRequest> = Vec::new();
        let mut i: usize = 0;
        while i < n
            invariant
                i <= n,
                n == self.requests@.len(),
                *self == *old(self),
                updated@.len() == i,
                updated@.map_values(|r: IncompleteRequest| r@) == self@.requests.take(
                    i as int,
                ).map_values(|rv: IncompleteRequestV| fill_request(rv, self@.outputs)),
            decreases n - i,
        {
            let mut filled = self.requests[i].clone();
            filled.fill(&self.outputs);
            let ghost pre = updated@;
            updated.push(filled);
            proof {
                pre.lemma_push_map_commute(|r: IncompleteRequest| r@, filled);
                self@.requests.lemma_map_take_succ(
                    |rv: IncompleteRequestV| fill_request(rv, self@.outputs),
                    i as int,
                );
                assert(filled@ == fill_request(self@.requests[i as int], self@.outputs));
                assert(updated@.map_values(|r: IncompleteRequest| r@) == self@.requests.take(
                    i + 1,
                ).map_values(|rv: IncompleteRequestV| fill_request(rv, self@.outputs)));
            }
            i = i + 1;
        }
        proof {
            assert(self@.requests.take(n as int) =~= self@.requests);
        }
        self.requests = updated;
        proof {
            assert(self@.requests =~= old(self)@.requests.map_values(
                |rv: IncompleteRequestV| fill_request(rv, old(self)@.outputs),
            ));
        }
    }

    /// Rewrites every request's back-references through the mapping, as
    /// when earlier entries are pruned and the survivors renumbered.
    pub fn adjust_all(&mut self, mapping: &IndexMapping)
        ensures
            final(self)@.requests == old(self)@.requests.map_values(
                |rv: IncompleteRequestV| adjust_request(rv, mapping@),
            ),
            final(self)@.decls == old(self)@.decls,
            final(self)@.outputs == old(self)@.outputs,
    {
        let n = self.requests.len();
        let mut updated: Vec<IncompleteRequest> = Vec::new();
        let mut i: usize = 0;
        while i < n
            invariant
                i <= n,
                n == self.requests@.len(),
                *self == *old(self),
                updated@.len() == i,
                updated@.map_values(|r: IncompleteRequest| r@) == self@.requests.take(
                    i as int,
                ).map_values(|rv: IncompleteRequestV| adjust_request(rv, mapping@)),
            decreases n - i,
        {
            let mut adjusted = self.requests[i].clone();
            adjusted.adjust_refs(mapping);
            let ghost pre = updated@;
            updated.push(adjusted);
            proof {
                pre.lemma_push_map_commute(|r: IncompleteRequest| r@, adjusted);
                self@.requests.lemma_map_take_succ(
                    |rv: IncompleteRequestV| adjust_request(rv, mapping@),
                    i as int,
                );
                assert(adjusted@ == adjust_request(self@.requests[i as int], mapping@));
                assert(updated@.map_values(|r: IncompleteRequest| r@) == self@.requests.take(
                    i + 1,
                ).map_values(|rv: IncompleteRequestV| adjust_request(rv, mapping@)));
            }
            i = i + 1;
        }
        proof {
            assert(self@.requests.take(n as int) =~= self@.requests);
        }
        self.requests = updated;
        proof {
            assert(self@.requests =~= old(self)@.requests.map_values(
                |rv: IncompleteRequestV| adjust_request(rv, mapping@),
            ));
        }
    }

    /// The hard gate before transmission: the complete form of every
    /// request, if and only if every slot of every request has resolved;
    /// `NoSuchOutput` as long as any back-reference remains.
    pub fn complete_all(&self) -> (r: Result<Vec<CompleteRequest>, NoSuchOutput>)
        ensures
            r is Ok <==> (forall|j: int|
                0 <= j < self@.requests.len() ==> all_scalar(#[trigger] self@.requests[j])),
            r matches Ok(out) ==> out@.map_values(|c: CompleteRequest| c@)
                == self@.requests.map_values(|rv: IncompleteRequestV| completed_request(rv)),
    {
        let n = self.requests.len();
        let mut out: Vec<CompleteRequest> = Vec::new();
        let mut i: usize = 0;
        while i < n
            invariant
                i <= n,
                n == self.requests@.len(),
                forall|j: int| 0 <= j < i ==> all_scalar(#[trigger] self@.requests[j]),
                out@.len() == i,
                out@.map_values(|done: CompleteRequest| done@) == self@.requests.take(
                    i as int,
                ).map_values(|rv: IncompleteRequestV| completed_request(rv)),
            decreases n - i,
        {
            match self.requests[i].clone().complete() {
                Ok(c) => {
                    let ghost pre = out@;
                    out.push(c);
                    proof {
                        pre.lemma_push_map_commute(|done: CompleteRequest| done@, c);
                        self@.requests.lemma_map_take_succ(
                            |rv: IncompleteRequestV| completed_request(rv),
                            i as int,
                        );
                        assert(c@ == completed_request(self@.requests[i as int]));
                        assert(out@.map_values(|done: CompleteRequest| done@) == self@.requests.take(
                            i + 1,
                        ).map_values(|rv: IncompleteRequestV| completed_request(rv)));
                    }
                },
                Err(e) => {
                    proof {
                        assert(!all_scalar(self@.requests[i as int]));
                    }
                    return Err(e);
                },
            }
            i = i + 1;
        }
        proof {
            assert(self@.requests.take(n as int) =~= self@.requests);
        }
        Ok(out)
    }
}

} // verus!
