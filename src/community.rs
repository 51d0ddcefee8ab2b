//! Community lists: fixed-width records back to back.
use vstd::prelude::*;
use crate::bytes::{put_bytes, put_u32, read_array, read_u32, u32_bytes, lemma_bytes_be32};
use crate::error::DecodeError;

verus! {

/// A fixed-width community record.
pub trait Community: Sized {
    /// The record's bytes on the wire.
    spec fn wire(&self) -> Seq<u8>;

    /// The width of every record of this family.
    spec fn width() -> nat;

    /// The width, at run time.
    fn record_width() -> (r: usize)
        ensures
            r == Self::width(),
            1 <= r <= 20,
    ;

    /// Reads the record at `pos`.
    fn read(buf: &[u8], pos: usize) -> (r: Self)
        requires
            pos + Self::width() <= buf@.len(),
            1 <= Self::width() <= 20,
        ensures
            r.wire() == buf@.subrange(pos as int, pos + Self::width()),
    ;

    /// Appends the record.
    fn write(&self, out: &mut Vec<u8>)
        ensures
            final(out)@ == old(out)@ + self.wire(),
    ;
}

/// A standard community: two 16-bit halves held as one 32-bit value.
#[derive(Clone, Copy, Debug, PartialEq, Eq, Structural)]
pub struct Comm(pub u32);

/// An extended community: type, subtype and value as eight raw bytes.
#[derive(Clone, Copy, Debug, PartialEq, Eq)]
pub struct ExtComm(pub [u8; 8]);

/// An IPv6-address-specific extended community: an address and a local administrator.
#[derive(Clone, Copy, Debug, PartialEq, Eq)]
pub struct Extv6Comm(pub [u8; 16], pub u32);

/// A large community: three 32-bit fields as twelve raw bytes.
#[derive(Clone, Copy, Debug, PartialEq, Eq)]
pub struct LargeComm(pub [u8; 12]);

impl Community for Comm {
    open spec fn wire(&self) -> Seq<u8> {
        u32_bytes(self.0)
    }

    open spec fn width() -> nat {
        4
    }

    fn record_width() -> usize {
        4
    }

    fn read(buf: &[u8], pos: usize) -> (r: Self) {
        let x = read_u32(buf, pos);
        proof {
            lemma_bytes_be32(buf@[pos as int], buf@[pos + 1], buf@[pos + 2], buf@[pos + 3]);
            assert(buf@.subrange(pos as int, pos + 4) =~= seq![buf@[pos as int], buf@[pos + 1], buf@[pos + 2], buf@[pos + 3]]);
        }
        Comm(x)
    }

    fn write(&self, out: &mut Vec<u8>) {
        put_u32(out, self.0);
    }
}

impl Community for ExtComm {
    open spec fn wire(&self) -> Seq<u8> {
        self.0@
    }

    open spec fn width() -> nat {
        8
    }

    fn record_width() -> usize {
        8
    }

    fn read(buf: &[u8], pos: usize) -> (r: Self) {
        ExtComm(read_array(buf, pos, [0u8; 8]))
    }

    fn write(&self, out: &mut Vec<u8>) {
        put_bytes(out, &self.0);
    }
}

impl Community for Extv6Comm {
    open spec fn wire(&self) -> Seq<u8> {
        self.0@ + u32_bytes(self.1)
    }

    open spec fn width() -> nat {
        20
    }

    fn record_width() -> usize {
        20
    }

    fn read(buf: &[u8], pos: usize) -> (r: Self) {
        let _n: usize = buf.len();
        let a = read_array(buf, pos, [0u8; 16]);
        let x = read_u32(buf, pos + 16);
        proof {
            let p = pos + 16int;
            lemma_bytes_be32(buf@[p], buf@[p + 1], buf@[p + 2], buf@[p + 3]);
            assert(buf@.subrange(pos as int, pos + 20) =~= a@ + seq![buf@[p], buf@[p + 1], buf@[p + 2], buf@[p + 3]]);
        }
        Extv6Comm(a, x)
    }

    fn write(&self, out: &mut Vec<u8>) {
        put_bytes(out, &self.0);
        put_u32(out, self.1);
        assert(final(out)@ =~= old(out)@ + self.wire());
    }
}

impl Community for LargeComm {
    open spec fn wire(&self) -> Seq<u8> {
        self.0@
    }

    open spec fn width() -> nat {
        12
    }

    fn record_width() -> usize {
        12
    }

    fn read(buf: &[u8], pos: usize) -> (r: Self) {
        LargeComm(read_array(buf, pos, [0u8; 12]))
    }

    fn write(&self, out: &mut Vec<u8>) {
        put_bytes(out, &self.0);
    }
}

/// A list of communities of one family.
#[derive(Clone, Debug, PartialEq, Eq)]
pub struct CommList<T>(pub Vec<T>);

/// The wire records of a sequence of communities.
pub open spec fn records<T: Community>(v: Seq<T>) -> Seq<Seq<u8>> {
    v.map_values(|c: T| c.wire())
}

/// Splits `s` into records of width `k`, after those in `acc`; a remainder
/// shorter than a record is a length error for attribute `code`.
pub open spec fn split_records(s: Seq<u8>, k: nat, code: u8, acc: Seq<Seq<u8>>) -> Result<
    Seq<Seq<u8>>,
    DecodeError,
>
    decreases s.len(),
{
    if s.len() == 0 {
        Ok(acc)
    } else if s.len() < k || k == 0 {
        Err(DecodeError::AttributeLengthError(code))
    } else {
        split_records(s.subrange(k as int, s.len() as int), k, code, acc.push(s.subrange(0, k as int)))
    }
}

/// Splitting the concatenation of records of width `k` gives the records.
pub proof fn lemma_split_round_trip(rs: Seq<Seq<u8>>, k: nat, code: u8, acc: Seq<Seq<u8>>)
    requires
        k > 0,
        forall|i: int| 0 <= i < rs.len() ==> (#[trigger] rs[i]).len() == k,
    ensures
        split_records(rs.flatten(), k, code, acc) == Ok::<Seq<Seq<u8>>, DecodeError>(acc + rs),
    decreases rs.len(),
{
    if rs.len() == 0 {
        assert(acc + rs =~= acc);
    } else {
        let s = rs.flatten();
        let t = rs.drop_first();
        assert(s == rs[0] + t.flatten());
        assert(rs[0].len() == k);
        assert(s.subrange(0, k as int) =~= rs[0]);
        assert(s.subrange(k as int, s.len() as int) =~= t.flatten());
        assert forall|i: int| 0 <= i < t.len() implies (#[trigger] t[i]).len() == k by {
            assert(t[i] == rs[i + 1]);
        }
        lemma_split_round_trip(t, k, code, acc.push(rs[0]));
        assert(acc.push(rs[0]) + t =~= acc + rs);
    }
}

impl<T: Community> CommList<T> {
    /// Decodes the attribute body `buf[start..end]` of attribute `code` as
    /// records of this family.
    pub fn decode(buf: &[u8], start: usize, end: usize, code: u8) -> (r: Result<Self, DecodeError>)
        requires
            start <= end <= buf@.len(),
        ensures
            match (r, split_records(buf@.subrange(start as int, end as int), T::width(), code, Seq::empty())) {
                (Ok(l), Ok(rs)) => records(l.0@) == rs,
                (Err(e), Err(f)) => e == f,
                _ => false,
            },
    {
        let k = T::record_width();
        let mut v: Vec<T> = Vec::new();
        let mut pos = start;
        assert(records(v@) =~= Seq::<Seq<u8>>::empty());
        while pos < end
            invariant
                start <= pos <= end <= buf@.len(),
                k == T::width(),
                1 <= k <= 20,
                split_records(buf@.subrange(start as int, end as int), k as nat, code, Seq::empty())
                    == split_records(buf@.subrange(pos as int, end as int), k as nat, code, records(v@)),
            decreases end - pos,
        {
            let ghost s = buf@.subrange(pos as int, end as int);
            if end - pos < k {
                return Err(DecodeError::AttributeLengthError(code));
            }
            let c = T::read(buf, pos);
            proof {
                assert(s.subrange(0, k as int) =~= buf@.subrange(pos as int, pos + k));
                assert(s.subrange(k as int, s.len() as int) =~= buf@.subrange(pos + k, end as int));
            }
            let ghost before = v@;
            v.push(c);
            assert(records(v@) =~= records(before).push(c.wire()));
            pos = pos + k;
        }
        Ok(CommList(v))
    }

    /// Appends the records of the list.
    pub fn encode(&self, out: &mut Vec<u8>)
        ensures
            final(out)@ == old(out)@ + records(self.0@).flatten(),
    {
        let ghost start = out@;
        let mut i: usize = 0;
        while i < self.0.len()
            invariant
                i <= self.0@.len(),
                out@ == start + records(self.0@.subrange(0, i as int)).flatten(),
            decreases self.0@.len() - i,
        {
            self.0[i].write(out);
            proof {
                let a = records(self.0@.subrange(0, i as int));
                assert(records(self.0@.subrange(0, i + 1)) =~= a.push(self.0@[i as int].wire()));
                a.lemma_flatten_push(self.0@[i as int].wire());
            }
            i = i + 1;
        }
        assert(self.0@.subrange(0, self.0@.len() as int) =~= self.0@);
    }
}

} // verus!
