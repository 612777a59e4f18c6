//! Batch-scoped tables: the outputs registered so far (the resolution
//! oracle) and the outputs each request declares (the validation target).

use vstd::prelude::*;
use crate::field::NoSuchOutput;
use crate::field::Output;
use crate::field::OutputKind;
use crate::field::OutputV;

verus! {

/// The batch-scoped output table: row `r` holds, in output-index order, the
/// outputs exposed by the response to request `r`. Responses are registered
/// in request order and never overwritten.
#[derive(Debug)]
pub struct OutputTable {
    rows: Vec<Vec<Output>>,
}

impl View for OutputTable {
    type V = Seq<Seq<OutputV>>;

    closed spec fn view(&self) -> Seq<Seq<OutputV>> {
        self.rows@.map_values(|row: Vec<Output>| row@.map_values(|o: Output| o@))
    }
}

impl OutputTable {
    /// An empty table: no response has been registered yet.
    pub fn new() -> (r: Self)
        ensures
            r@ == Seq::<Seq<OutputV>>::empty(),
    {
        let r = OutputTable { rows: Vec::new() };
        proof {
            assert(r@ =~= Seq::<Seq<OutputV>>::empty());
        }
        r
    }

    /// How many responses have been registered.
    pub fn len(&self) -> (n: usize)
        ensures
            n == self@.len(),
    {
        self.rows.len()
    }

    /// Registers the outputs exposed by the next response, in request order.
    pub fn register_response(&mut self, outputs: Vec<Output>)
        ensures
            final(self)@ == old(self)@.push(outputs@.map_values(|o: Output| o@)),
    {
        self.rows.push(outputs);
        proof {
            assert(self@ =~= old(self)@.push(
                self.rows@[self.rows@.len() - 1]@.map_values(|o: Output| o@),
            ));
        }
    }

    /// The oracle: the output at `(req, idx)`, or `NoSuchOutput` where no
    /// such output has been registered.
    pub fn lookup(&self, req: usize, idx: usize) -> (r: Result<Output, NoSuchOutput>)
        ensures
            r is Ok <==> req < self@.len() && idx < self@[req as int].len(),
            r matches Ok(o) ==> o@ == self@[req as int][idx as int],
    {
        if req < self.rows.len() {
            let row = &self.rows[req];
            if idx < row.len() {
                Ok(row[idx].clone())
            } else {
                Err(NoSuchOutput)
            }
        } else {
            Err(NoSuchOutput)
        }
    }
}

/// Whether `d` declares an output of kind `kind` at `(req, idx)`.
pub open spec fn decl_ok(d: Seq<Seq<OutputKind>>, req: int, idx: int, kind: OutputKind) -> bool {
    &&& 0 <= req < d.len()
    &&& 0 <= idx < d[req].len()
    &&& d[req][idx] == kind
}

/// The declaration table: row `r` holds, in output-index order, the kinds
/// of the outputs that request `r` will expose once answered.
#[derive(Debug)]
pub struct DeclTable {
    rows: Vec<Vec<OutputKind>>,
}

impl View for DeclTable {
    type V = Seq<Seq<OutputKind>>;

    closed spec fn view(&self) -> Seq<Seq<OutputKind>> {
        self.rows@.map_values(|row: Vec<OutputKind>| row@)
    }
}

impl DeclTable {
    /// An empty table: no request has been added yet.
    pub fn new() -> (r: Self)
        ensures
            r@ == Seq::<Seq<OutputKind>>::empty(),
    {
        let r = DeclTable { rows: Vec::new() };
        proof {
            assert(r@ =~= Seq::<Seq<OutputKind>>::empty());
        }
        r
    }

    /// How many requests have declared their outputs.
    pub fn len(&self) -> (n: usize)
        ensures
            n == self@.len(),
    {
        self.rows.len()
    }

    /// Records the declared output kinds of the next request, in request
    /// order.
    pub fn push_request(&mut self, kinds: Vec<OutputKind>)
        ensures
            final(self)@ == old(self)@.push(kinds@),
    {
        self.rows.push(kinds);
        proof {
            assert(self@ =~= old(self)@.push(self.rows@[self.rows@.len() - 1]@));
        }
    }

    /// Whether an output of kind `kind` is declared at `(req, idx)`.
    pub fn declares(&self, req: usize, idx: usize, kind: OutputKind) -> (r: bool)
        ensures
            r == decl_ok(self@, req as int, idx as int, kind),
    {
        req < self.rows.len() && idx < self.rows[req].len() && self.rows[req][idx] == kind
    }
}

} // verus!
