//! Resolution primitives: output kinds, outputs, and resolution slots.

use vstd::prelude::*;
use crate::mapping::IndexMapping;
use crate::mapping::map_lookup;

verus! {

/// The single error of this layer: a back-reference points at an output
/// that does not exist (or has the wrong kind), or completion was attempted
/// while back-references remain.
#[derive(Debug, Clone, Copy, PartialEq, Eq, Structural)]
pub struct NoSuchOutput;

/// The shape of a value exposed by a response, used only to validate
/// reference compatibility before resolution.
#[derive(Debug, Clone, Copy, PartialEq, Eq, Structural)]
pub enum OutputKind {
    /// A 256-bit hash.
    Hash,
    /// A block number.
    Number,
}

/// A 256-bit hash value, carried as its 32 raw bytes.
#[derive(Debug, PartialEq, Eq)]
pub struct Hash256 {
    /// The raw bytes of the hash, most significant first.
    pub bytes: Vec<u8>,
}

impl View for Hash256 {
    type V = Seq<u8>;

    open spec fn view(&self) -> Seq<u8> {
        self.bytes@
    }
}

impl Hash256 {
    /// A hash is well formed when it holds exactly 32 bytes.
    pub open spec fn wf(&self) -> bool {
        self@.len() == 32
    }

    /// Builds a hash from its 32 raw bytes.
    pub fn new(bytes: Vec<u8>) -> (r: Self)
        requires
            bytes@.len() == 32,
        ensures
            r@ == bytes@,
            r.wf(),
    {
        Hash256 { bytes }
    }
}

impl Clone for Hash256 {
    fn clone(&self) -> (r: Self)
        ensures
            r@ == self@,
    {
        let mut copy: Vec<u8> = Vec::new();
        let mut i: usize = 0;
        while i < self.bytes.len()
            invariant
                i <= self.bytes@.len(),
                copy@ == self.bytes@.take(i as int),
            decreases self.bytes@.len() - i,
        {
            copy.push(self.bytes[i]);
            proof {
                assert(copy@ =~= self.bytes@.take(i + 1));
            }
            i = i + 1;
        }
        proof {
            assert(copy@ =~= self.bytes@);
        }
        Hash256 { bytes: copy }
    }
}

/// A value exposed by a response for consumption by later requests.
#[derive(Debug, PartialEq, Eq)]
pub enum Output {
    /// A 256-bit hash.
    Hash(Hash256),
    /// A block number.
    Number(u64),
}

/// The mathematical value of an [`Output`].
pub enum OutputV {
    Hash(Seq<u8>),
    Number(u64),
}

impl View for Output {
    type V = OutputV;

    open spec fn view(&self) -> OutputV {
        match self {
            Output::Hash(h) => OutputV::Hash(h@),
            Output::Number(n) => OutputV::Number(*n),
        }
    }
}

/// The kind that an output carries.
pub open spec fn output_kind(o: OutputV) -> OutputKind {
    match o {
        OutputV::Hash(_) => OutputKind::Hash,
        OutputV::Number(_) => OutputKind::Number,
    }
}

impl Clone for Output {
    fn clone(&self) -> (r: Self)
        ensures
            r@ == self@,
    {
        match self {
            Output::Hash(h) => Output::Hash(h.clone()),
            Output::Number(n) => Output::Number(*n),
        }
    }
}

/// A resolution slot: either a concrete scalar, or a back-reference
/// `(request_index, output_index)` to an output of an earlier request in
/// the same batch.
#[derive(Debug, PartialEq, Eq)]
pub enum Field<T> {
    /// A concrete value.
    Scalar(T),
    /// A reference to the output slot `(request_index, output_index)`.
    BackReference(usize, usize),
}

/// The mathematical value of a [`Field`].
pub enum FieldV<TV> {
    Scalar(TV),
    BackReference(int, int),
}

impl<T: View> View for Field<T> {
    type V = FieldV<T::V>;

    open spec fn view(&self) -> FieldV<T::V> {
        match self {
            Field::Scalar(t) => FieldV::Scalar(t@),
            Field::BackReference(req, idx) => FieldV::BackReference(*req as int, *idx as int),
        }
    }
}

/// A back-reference rewritten through a request-index mapping; scalars are
/// left untouched.
pub open spec fn adjust_field<TV>(f: FieldV<TV>, m: Seq<usize>) -> FieldV<TV> {
    match f {
        FieldV::Scalar(_) => f,
        FieldV::BackReference(req, idx) => FieldV::BackReference(map_lookup(m, req), idx),
    }
}

impl Clone for Field<Hash256> {
    fn clone(&self) -> (r: Self)
        ensures
            r@ == self@,
    {
        match self {
            Field::Scalar(h) => Field::Scalar(h.clone()),
            Field::BackReference(req, idx) => Field::BackReference(*req, *idx),
        }
    }
}

impl<T> Field<T> {
    /// Consumes the slot, yielding its scalar, or `NoSuchOutput` if it is
    /// still an unresolved back-reference.
    pub fn into_scalar(self) -> (r: Result<T, NoSuchOutput>)
        ensures
            r is Ok <==> self is Scalar,
            self matches Field::Scalar(t) ==> r == Ok::<T, NoSuchOutput>(t),
    {
        match self {
            Field::Scalar(t) => Ok(t),
            Field::BackReference(_, _) => Err(NoSuchOutput),
        }
    }
}

impl<T: View> Field<T> {
    /// Rewrites the slot's request index through `m`; a scalar is left
    /// untouched.
    pub fn adjust_req(&mut self, m: &IndexMapping)
        ensures
            final(self)@ == adjust_field(old(self)@, m@),
    {
        let repl = match &*self {
            Field::BackReference(req, idx) => Some((m.lookup(*req), *idx)),
            Field::Scalar(_) => None,
        };
        if let Some((req, idx)) = repl {
            *self = Field::BackReference(req, idx);
        }
    }
}

} // verus!
