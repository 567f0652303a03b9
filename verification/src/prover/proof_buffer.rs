//! The proof as a byte string: appended to by the prover, consumed from the
//! front by the verifier.
use crate::field::FieldSerde;
use crate::hash::merkle_tree::HASH_SIZE;
use vstd::prelude::*;
use vstd::slice::slice_subrange;

verus! {

/// The bytes of a proof from `cursor` on; nothing, where the cursor has run
/// past the end.
pub open spec fn bytes_from(bytes: Seq<u8>, cursor: nat) -> Seq<u8> {
    if cursor <= bytes.len() {
        bytes.subrange(cursor as int, bytes.len() as int)
    } else {
        Seq::empty()
    }
}

/// The field element encoded at `cursor`, if a canonical one stands there.
pub open spec fn read_field<F: FieldSerde>(bytes: Seq<u8>, cursor: nat) -> Option<F> {
    let rest = bytes_from(bytes, cursor);
    if rest.len() >= F::spec_size() && F::spec_is_canonical(rest) {
        Some(F::spec_deserialize(rest))
    } else {
        None
    }
}

/// The `len` bytes at `cursor`, if that many are left.
pub open spec fn read_slice(bytes: Seq<u8>, cursor: nat, len: nat) -> Option<Seq<u8>> {
    let rest = bytes_from(bytes, cursor);
    if rest.len() >= len {
        Some(rest.subrange(0, len as int))
    } else {
        None
    }
}

/// A proof in serialized form, with the position that the next read starts at.
#[derive(Clone, Debug)]
pub struct Proof {
    pub idx: usize,
    pub bytes: Vec<u8>,
}

impl Default for Proof {
    fn default() -> (p: Proof)
        ensures
            p.bytes@.len() == 0,
            p.cursor() == 0,
    {
        Proof { idx: 0, bytes: Vec::new() }
    }
}

impl Proof {
    /// The position that the next read starts at.
    pub open spec fn cursor(&self) -> nat {
        self.idx as nat
    }

    /// The bytes that have not been read yet.
    pub open spec fn remaining(&self) -> Seq<u8> {
        bytes_from(self.bytes@, self.cursor())
    }

    /// A proof over `bytes`, to be read from the start.
    pub fn from_bytes(bytes: Vec<u8>) -> (p: Proof)
        ensures
            p.bytes@ == bytes@,
            p.cursor() == 0,
    {
        Proof { idx: 0, bytes }
    }

    /// The position that the next read starts at.
    pub fn position(&self) -> (i: usize)
        ensures
            i == self.cursor(),
    {
        self.idx
    }

    /// Appends the first `size` bytes of `buffer`.
    pub fn append_u8_slice(&mut self, buffer: &[u8], size: usize)
        requires
            size <= buffer@.len(),
        ensures
            final(self).bytes@ == old(self).bytes@ + buffer@.subrange(0, size as int),
            final(self).cursor() == old(self).cursor(),
    {
        let mut i: usize = 0;
        proof {
            assert(self.bytes@ =~= old(self).bytes@ + buffer@.subrange(0, 0));
        }
        while i < size
            invariant
                i <= size <= buffer@.len(),
                self.idx == old(self).idx,
                self.bytes@ == old(self).bytes@ + buffer@.subrange(0, i as int),
            decreases size - i,
        {
            self.bytes.push(buffer[i]);
            proof {
                assert(self.bytes@ =~= old(self).bytes@ + buffer@.subrange(0, i + 1));
            }
            i += 1;
        }
    }

    /// Moves the read position forward by `size` bytes.
    pub fn step(&mut self, size: usize)
        requires
            old(self).cursor() + size <= usize::MAX,
        ensures
            final(self).cursor() == old(self).cursor() + size,
            final(self).bytes == old(self).bytes,
    {
        self.idx += size;
    }

    /// Reads the next field element. Fails, leaving the position where it
    /// was, when fewer bytes than one element are left or when they are not
    /// the encoding of a canonical element.
    pub fn get_next_and_step<F: FieldSerde>(&mut self) -> (r: Option<F>)
        ensures
            final(self).bytes == old(self).bytes,
            r == read_field::<F>(old(self).bytes@, old(self).cursor()),
            r matches Some(x) ==> x.wf() && final(self).cursor() == old(self).cursor()
                + F::spec_size(),
            r.is_none() ==> final(self).cursor() == old(self).cursor(),
    {
        let size = F::size();
        let len = self.bytes.len();
        if self.idx > len {
            return None;
        }
        let rest = slice_subrange(self.bytes.as_slice(), self.idx, len);
        let r = F::decode(rest);
        if r.is_some() {
            self.idx += size;
        }
        r
    }

    /// Reads the next 32-byte hash. Fails, leaving the position where it was,
    /// when fewer than 32 bytes are left.
    pub fn get_next_hash(&mut self) -> (r: Option<[u8; HASH_SIZE]>)
        ensures
            final(self).bytes == old(self).bytes,
            r.is_some() == read_slice(old(self).bytes@, old(self).cursor(), HASH_SIZE as nat).is_some(),
            r matches Some(h) ==> read_slice(old(self).bytes@, old(self).cursor(), HASH_SIZE as nat)
                == Some(h@) && final(self).cursor() == old(self).cursor() + HASH_SIZE,
            r.is_none() ==> final(self).cursor() == old(self).cursor(),
    {
        let len = self.bytes.len();
        if self.idx > len || len - self.idx < HASH_SIZE {
            return None;
        }
        let mut ret = [0u8; HASH_SIZE];
        let mut i: usize = 0;
        while i < HASH_SIZE
            invariant
                i <= HASH_SIZE,
                self.idx + HASH_SIZE <= len,
                len == self.bytes@.len(),
                self.idx == old(self).idx,
                self.bytes == old(self).bytes,
                forall|j: int| 0 <= j < i ==> ret@[j] == self.bytes@[self.idx + j],
            decreases HASH_SIZE - i,
        {
            ret[i] = self.bytes[self.idx + i];
            i += 1;
        }
        proof {
            assert(ret@ =~= old(self).remaining().subrange(0, HASH_SIZE as int));
        }
        self.idx += HASH_SIZE;
        Some(ret)
    }

    /// Reads the next `len` bytes. Fails, leaving the position where it was,
    /// when fewer than `len` bytes are left.
    pub fn get_next_slice(&mut self, len: usize) -> (r: Option<Vec<u8>>)
        ensures
            final(self).bytes == old(self).bytes,
            r.is_some() == read_slice(old(self).bytes@, old(self).cursor(), len as nat).is_some(),
            r matches Some(v) ==> read_slice(old(self).bytes@, old(self).cursor(), len as nat)
                == Some(v@) && final(self).cursor() == old(self).cursor() + len,
            r.is_none() ==> final(self).cursor() == old(self).cursor(),
    {
        let total = self.bytes.len();
        let mut ret: Vec<u8> = Vec::new();
        if len == 0 {
            proof {
                assert(ret@ =~= old(self).remaining().subrange(0, 0));
            }
            return Some(ret);
        }
        if self.idx > total || total - self.idx < len {
            return None;
        }
        let mut i: usize = 0;
        while i < len
            invariant
                i <= len,
                self.idx + len <= total,
                total == self.bytes@.len(),
                self.idx == old(self).idx,
                self.bytes == old(self).bytes,
                ret@.len() == i,
                forall|j: int| 0 <= j < i ==> ret@[j] == self.bytes@[self.idx + j],
            decreases len - i,
        {
            ret.push(self.bytes[self.idx + i]);
            i += 1;
        }
        proof {
            assert(ret@ =~= old(self).remaining().subrange(0, len as int));
        }
        self.idx += len;
        Some(ret)
    }
}

/// What was appended is what is read back: after appending the encoding of
/// `x` to an unread proof, the next element read is `x`.
pub proof fn lemma_append_then_read<F: FieldSerde>(x: F, rest: Seq<u8>)
    requires
        x.wf(),
    ensures
        F::spec_is_canonical(x.spec_serialize() + rest),
        F::spec_deserialize(x.spec_serialize() + rest) == x,
        (x.spec_serialize() + rest).len() >= F::spec_size(),
{
    F::lemma_serialize_round_trip(x, rest);
    F::lemma_serialize_len(x);
}

} // verus!
