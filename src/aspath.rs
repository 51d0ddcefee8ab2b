//! AS_PATH and AS4_PATH bodies, with AS numbers of two or four bytes.
use vstd::prelude::*;
use crate::bytes::{
    be16, be32, lemma_be16_bytes, lemma_be32_bytes, put_u16, put_u32, read_u16, read_u32,
    u16_bytes, u32_bytes,
};
use crate::error::{DecodeError, EncodeError};

verus! {

/// The kind of an AS path segment.
#[derive(Clone, Copy, Debug, PartialEq, Eq, Structural)]
pub enum AsPathSegmentType {
    AsSet,
    AsSequence,
}

/// One segment: its kind and its AS numbers in order.
#[derive(Clone, Debug, PartialEq, Eq)]
pub struct AsPathSegment {
    pub seg_type: AsPathSegmentType,
    pub members: Vec<u32>,
}

/// An AS path: its segments in order.
#[derive(Clone, Debug, PartialEq, Eq)]
pub struct AsPath {
    pub segments: Vec<AsPathSegment>,
}

/// A segment as a mathematical value.
pub type SegV = (AsPathSegmentType, Seq<u32>);

impl View for AsPathSegment {
    type V = SegV;

    open spec fn view(&self) -> SegV {
        (self.seg_type, self.members@)
    }
}

impl View for AsPath {
    type V = Seq<SegV>;

    open spec fn view(&self) -> Seq<SegV> {
        self.segments@.map_values(|s: AsPathSegment| s@)
    }
}

/// The wire code of a segment kind.
pub open spec fn seg_code(t: AsPathSegmentType) -> u8 {
    match t {
        AsPathSegmentType::AsSet => 1,
        AsPathSegmentType::AsSequence => 2,
    }
}

/// Bytes per AS number: four when both peers support four-octet AS numbers, else two.
pub open spec fn asn_width(four: bool) -> nat {
    if four {
        4
    } else {
        2
    }
}

/// The AS number at the start of `s`.
pub open spec fn asn_at(s: Seq<u8>, four: bool) -> u32 {
    if four {
        be32(s[0], s[1], s[2], s[3])
    } else {
        be16(s[0], s[1]) as u32
    }
}

/// The wire form of one AS number.
pub open spec fn asn_bytes(x: u32, four: bool) -> Seq<u8> {
    if four {
        u32_bytes(x)
    } else {
        u16_bytes(x as u16)
    }
}

/// `n` AS numbers read back to back from the start of `s`.
pub open spec fn decode_asns(s: Seq<u8>, n: nat, four: bool) -> Seq<u32>
    decreases n,
{
    if n == 0 || s.len() < asn_width(four) {
        Seq::empty()
    } else {
        seq![asn_at(s, four)] + decode_asns(
            s.subrange(asn_width(four) as int, s.len() as int),
            (n - 1) as nat,
            four,
        )
    }
}

/// Decodes segments until `s` is used up, after those in `acc`.
pub open spec fn decode_segments(s: Seq<u8>, four: bool, acc: Seq<SegV>) -> Result<
    Seq<SegV>,
    DecodeError,
>
    decreases s.len(),
{
    if s.len() == 0 {
        Ok(acc)
    } else if s.len() < 2 || !(s[0] == 1 || s[0] == 2) {
        Err(DecodeError::MalformedAsPath)
    } else {
        let t = if s[0] == 1 {
            AsPathSegmentType::AsSet
        } else {
            AsPathSegmentType::AsSequence
        };
        let n = s[1] as nat;
        let len = 2 + n * asn_width(four);
        if s.len() < len {
            Err(DecodeError::MalformedAsPath)
        } else {
            let seg = (t, decode_asns(s.subrange(2, s.len() as int), n, four));
            decode_segments(s.subrange(len as int, s.len() as int), four, acc.push(seg))
        }
    }
}

/// Decodes a whole AS path body.
pub open spec fn decode_as_path(s: Seq<u8>, four: bool) -> Result<Seq<SegV>, DecodeError> {
    decode_segments(s, four, Seq::empty())
}

/// The wire form of a list of AS numbers.
pub open spec fn asns_bytes(ms: Seq<u32>, four: bool) -> Seq<u8> {
    ms.map_values(|x: u32| asn_bytes(x, four)).flatten()
}

/// The wire form of a segment.
pub open spec fn segment_bytes(g: SegV, four: bool) -> Seq<u8> {
    seq![seg_code(g.0), g.1.len() as u8] + asns_bytes(g.1, four)
}

/// The wire form of an AS path.
pub open spec fn as_path_bytes(p: Seq<SegV>, four: bool) -> Seq<u8> {
    p.map_values(|g: SegV| segment_bytes(g, four)).flatten()
}

/// Every AS number fits the width in use.
pub open spec fn asns_fit(p: Seq<SegV>, four: bool) -> bool {
    four || forall|i: int, j: int|
        0 <= i < p.len() && 0 <= j < p[i].1.len() ==> #[trigger] p[i].1[j] <= 0xffff
}

/// No segment holds more AS numbers than its count byte can say.
pub open spec fn segments_fit(p: Seq<SegV>) -> bool {
    forall|i: int| 0 <= i < p.len() ==> (#[trigger] p[i]).1.len() <= 255
}

/// Why an AS path cannot be encoded, if it cannot.
pub open spec fn as_path_check(p: Seq<SegV>, four: bool) -> Result<(), EncodeError> {
    if !asns_fit(p, four) {
        Err(EncodeError::UnsupportedCapability)
    } else if !segments_fit(p) {
        Err(EncodeError::MessageTooLong)
    } else {
        Ok(())
    }
}

proof fn lemma_asns_bytes_len(ms: Seq<u32>, four: bool)
    ensures
        asns_bytes(ms, four).len() == ms.len() * asn_width(four),
    decreases ms.len(),
{
    if ms.len() > 0 {
        let t = ms.drop_first();
        assert(ms.map_values(|x: u32| asn_bytes(x, four)).drop_first() =~= t.map_values(
            |x: u32| asn_bytes(x, four),
        ));
        lemma_asns_bytes_len(t, four);
        assert(ms.len() * asn_width(four) == asn_width(four) + t.len() * asn_width(four))
            by (nonlinear_arith)
            requires
                ms.len() == t.len() + 1,
        ;
    }
}

proof fn lemma_asns_round_trip(ms: Seq<u32>, four: bool, rest: Seq<u8>)
    requires
        four || forall|j: int| 0 <= j < ms.len() ==> #[trigger] ms[j] <= 0xffff,
    ensures
        decode_asns(asns_bytes(ms, four) + rest, ms.len(), four) == ms,
    decreases ms.len(),
{
    let s = asns_bytes(ms, four) + rest;
    if ms.len() > 0 {
        let t = ms.drop_first();
        let w = asn_width(four);
        assert(ms.map_values(|x: u32| asn_bytes(x, four)).drop_first() =~= t.map_values(
            |x: u32| asn_bytes(x, four),
        ));
        assert(asns_bytes(ms, four) == asn_bytes(ms[0], four) + asns_bytes(t, four));
        if four {
            lemma_be32_bytes(ms[0]);
        } else {
            lemma_be16_bytes(ms[0] as u16);
        }
        assert(asn_at(s, four) == ms[0]);
        assert(s.subrange(w as int, s.len() as int) =~= asns_bytes(t, four) + rest);
        assert forall|j: int| 0 <= j < t.len() implies four || #[trigger] t[j] <= 0xffff by {
            assert(t[j] == ms[j + 1]);
        }
        lemma_asns_round_trip(t, four, rest);
        assert(seq![ms[0]] + t =~= ms);
    } else {
        assert(decode_asns(s, 0, four) =~= ms);
    }
}

proof fn lemma_segments_round_trip(p: Seq<SegV>, four: bool, acc: Seq<SegV>)
    requires
        asns_fit(p, four),
        segments_fit(p),
    ensures
        decode_segments(as_path_bytes(p, four), four, acc) == Ok::<Seq<SegV>, DecodeError>(acc + p),
    decreases p.len(),
{
    if p.len() == 0 {
        assert(acc + p =~= acc);
    } else {
        let t = p.drop_first();
        let g = p[0];
        let s = as_path_bytes(p, four);
        assert(p.map_values(|g: SegV| segment_bytes(g, four)).drop_first() =~= t.map_values(
            |g: SegV| segment_bytes(g, four),
        ));
        assert(s == segment_bytes(g, four) + as_path_bytes(t, four));
        assert(g.1.len() <= 255);
        lemma_asns_bytes_len(g.1, four);
        let len = 2 + g.1.len() * asn_width(four);
        assert(s.subrange(2, s.len() as int) =~= asns_bytes(g.1, four) + as_path_bytes(t, four));
        assert forall|j: int| 0 <= j < g.1.len() implies four || #[trigger] g.1[j] <= 0xffff by {
            if !four {
                assert(p[0].1[j] <= 0xffff);
            }
        }
        lemma_asns_round_trip(g.1, four, as_path_bytes(t, four));
        assert(s.subrange(len as int, s.len() as int) =~= as_path_bytes(t, four));
        assert(asns_fit(t, four)) by {
            if !four {
                assert forall|i: int, j: int|
                    0 <= i < t.len() && 0 <= j < t[i].1.len() implies #[trigger] t[i].1[j]
                    <= 0xffff by {
                    assert(t[i] == p[i + 1]);
                }
            }
        }
        assert(segments_fit(t)) by {
            assert forall|i: int| 0 <= i < t.len() implies (#[trigger] t[i]).1.len() <= 255 by {
                assert(t[i] == p[i + 1]);
            }
        }
        lemma_segments_round_trip(t, four, acc.push(g));
        assert(acc.push(g) + t =~= acc + p);
    }
}

/// An AS path that can be encoded at a width decodes back from its wire form
/// at that same width.
pub proof fn lemma_as_path_round_trip(p: Seq<SegV>, four: bool)
    requires
        as_path_check(p, four) is Ok,
    ensures
        decode_as_path(as_path_bytes(p, four), four) == Ok::<Seq<SegV>, DecodeError>(p),
{
    lemma_segments_round_trip(p, four, Seq::empty());
    assert(Seq::<SegV>::empty() + p =~= p);
}

/// Every decoded AS path can be encoded again at the width it was read with.
pub proof fn lemma_decoded_as_path_fits(s: Seq<u8>, four: bool, acc: Seq<SegV>)
    requires
        as_path_check(acc, four) is Ok,
    ensures
        decode_segments(s, four, acc) matches Ok(p) ==> as_path_check(p, four) is Ok,
    decreases s.len(),
{
    if s.len() >= 2 && (s[0] == 1 || s[0] == 2) {
        let t = if s[0] == 1 {
            AsPathSegmentType::AsSet
        } else {
            AsPathSegmentType::AsSequence
        };
        let n = s[1] as nat;
        let len = 2 + n * asn_width(four);
        if s.len() >= len {
            let ms = decode_asns(s.subrange(2, s.len() as int), n, four);
            lemma_decoded_asns(s.subrange(2, s.len() as int), n, four);
            let acc2 = acc.push((t, ms));
            assert(asns_fit(acc2, four)) by {
                if !four {
                    assert forall|i: int, j: int|
                        0 <= i < acc2.len() && 0 <= j < acc2[i].1.len() implies #[trigger] acc2[i].1[j]
                        <= 0xffff by {
                        if i < acc.len() {
                            assert(acc2[i] == acc[i]);
                        }
                    }
                }
            }
            assert(segments_fit(acc2)) by {
                assert forall|i: int| 0 <= i < acc2.len() implies (#[trigger] acc2[i]).1.len()
                    <= 255 by {
                    if i < acc.len() {
                        assert(acc2[i] == acc[i]);
                    }
                }
            }
            lemma_decoded_asns(s.subrange(2, s.len() as int), n, four);
            lemma_decoded_as_path_fits(s.subrange(len as int, s.len() as int), four, acc2);
        }
    }
}

proof fn lemma_decoded_asns(s: Seq<u8>, n: nat, four: bool)
    ensures
        decode_asns(s, n, four).len() <= n,
        !four ==> forall|j: int|
            0 <= j < decode_asns(s, n, four).len() ==> #[trigger] decode_asns(s, n, four)[j]
                <= 0xffff,
    decreases n,
{
    if n > 0 && s.len() >= asn_width(four) {
        let t = s.subrange(asn_width(four) as int, s.len() as int);
        lemma_decoded_asns(t, (n - 1) as nat, four);
        let r = decode_asns(s, n, four);
        if !four {
            assert forall|j: int| 0 <= j < r.len() implies #[trigger] r[j] <= 0xffff by {
                if j > 0 {
                    assert(r[j] == decode_asns(t, (n - 1) as nat, four)[j - 1]);
                }
            }
        }
    }
}

/// The same bytes read at the two widths: the two-byte reading takes each AS
/// number from two bytes, the four-byte reading from four.
pub proof fn lemma_width_sensitivity(s: Seq<u8>)
    requires
        s.len() >= 4,
    ensures
        asn_at(s, false) == be16(s[0], s[1]) as u32,
        asn_at(s, true) == be32(s[0], s[1], s[2], s[3]),
        (s[0] != 0 || s[1] != 0) ==> asn_at(s, false) != asn_at(s, true),
{
    let (a, b, c, d) = (s[0], s[1], s[2], s[3]);
    assert((a != 0 || b != 0) ==> (((a as u16) << 8u16) | (b as u16)) as u32 != (((a as u32)
        << 24u32) | ((b as u32) << 16u32) | ((c as u32) << 8u32) | (d as u32))) by (bit_vector);
}

/// Decoding an AS path body, encoding the result at the same width and
/// decoding again gives the same path.
pub proof fn lemma_as_path_idempotent(s: Seq<u8>, four: bool)
    ensures
        decode_as_path(s, four) matches Ok(p) ==> decode_as_path(as_path_bytes(p, four), four) == Ok::<
            Seq<SegV>,
            DecodeError,
        >(p),
{
    assert(as_path_check(Seq::<SegV>::empty(), four) is Ok);
    lemma_decoded_as_path_fits(s, four, Seq::empty());
    if let Ok(p) = decode_as_path(s, four) {
        lemma_as_path_round_trip(p, four);
    }
}

/// Reads one AS number at `pos`.
fn read_asn(buf: &[u8], pos: usize, four: bool) -> (r: u32)
    requires
        pos + asn_width(four) <= buf@.len(),
    ensures
        four ==> r == be32(buf@[pos as int], buf@[pos + 1], buf@[pos + 2], buf@[pos + 3]),
        !four ==> r == be16(buf@[pos as int], buf@[pos + 1]) as u32,
{
    if four {
        read_u32(buf, pos)
    } else {
        read_u16(buf, pos) as u32
    }
}

impl AsPath {
    /// Decodes the AS path body `buf[start..end]`, with four-byte AS numbers
    /// when `four` holds.
    pub fn decode(buf: &[u8], start: usize, end: usize, four: bool) -> (r: Result<AsPath, DecodeError>)
        requires
            start <= end <= buf@.len(),
        ensures
            match (r, decode_as_path(buf@.subrange(start as int, end as int), four)) {
                (Ok(p), Ok(v)) => p@ == v,
                (Err(e), Err(f)) => e == f,
                _ => false,
            },
    {
        let w: usize = if four { 4 } else { 2 };
        let mut segments: Vec<AsPathSegment> = Vec::new();
        let mut pos = start;
        assert(segments@.map_values(|s: AsPathSegment| s@) =~= Seq::<SegV>::empty());
        while pos < end
            invariant
                start <= pos <= end <= buf@.len(),
                w == asn_width(four),
                decode_as_path(buf@.subrange(start as int, end as int), four) == decode_segments(
                    buf@.subrange(pos as int, end as int),
                    four,
                    segments@.map_values(|s: AsPathSegment| s@),
                ),
            decreases end - pos,
        {
            let ghost s = buf@.subrange(pos as int, end as int);
            if end - pos < 2 || !(buf[pos] == 1 || buf[pos] == 2) {
                return Err(DecodeError::MalformedAsPath);
            }
            let seg_type = if buf[pos] == 1 {
                AsPathSegmentType::AsSet
            } else {
                AsPathSegmentType::AsSequence
            };
            let n = buf[pos + 1] as usize;
            if end - pos - 2 < n * w {
                return Err(DecodeError::MalformedAsPath);
            }
            let mut members: Vec<u32> = Vec::new();
            let mut j: usize = 0;
            let mut q = pos + 2;
            proof {
                assert(buf@.subrange(q as int, end as int) =~= s.subrange(2, s.len() as int));
                assert(members@ + decode_asns(buf@.subrange(q as int, end as int), n as nat, four)
                    =~= decode_asns(s.subrange(2, s.len() as int), n as nat, four));
            }
            while j < n
                invariant
                    j <= n,
                    n <= 255,
                    w == asn_width(four),
                    q == pos + 2 + j * w,
                    pos + 2 + n * w <= end <= buf@.len(),
                    members@ + decode_asns(buf@.subrange(q as int, end as int), (n - j) as nat, four)
                        == decode_asns(s.subrange(2, s.len() as int), n as nat, four),
                decreases n - j,
            {
                assert(q + w <= pos + 2 + n * w) by (nonlinear_arith)
                    requires
                        q == pos + 2 + j * w,
                        j < n,
                ;
                let x = read_asn(buf, q, four);
                let ghost t = buf@.subrange(q as int, end as int);
                proof {
                    assert(t[0] == buf@[q as int] && t[1] == buf@[q + 1]);
                    if four {
                        assert(t[2] == buf@[q + 2] && t[3] == buf@[q + 3]);
                    }
                    assert(asn_at(t, four) == x);
                    assert(t.subrange(w as int, t.len() as int) =~= buf@.subrange(
                        q + w,
                        end as int,
                    ));
                }
                let ghost before = members@;
                members.push(x);
                j = j + 1;
                q = q + w;
                proof {
                    assert(q == pos + 2 + j * w) by (nonlinear_arith)
                        requires
                            q == pos + 2 + (j - 1) * w + w,
                    ;
                    assert(before + (seq![x] + decode_asns(
                        buf@.subrange(q as int, end as int),
                        (n - j) as nat,
                        four,
                    )) =~= members@ + decode_asns(buf@.subrange(q as int, end as int), (n - j) as nat, four));
                }
            }
            assert(decode_asns(buf@.subrange(q as int, end as int), 0, four) =~= Seq::<u32>::empty());
            assert(members@ + Seq::<u32>::empty() =~= members@);
            let ghost before = segments@;
            let seg = AsPathSegment { seg_type, members };
            segments.push(seg);
            proof {
                assert(segments@.map_values(|s: AsPathSegment| s@) =~= before.map_values(
                    |s: AsPathSegment| s@,
                ).push(seg@));
                assert(s.subrange(2 + n * w, s.len() as int) =~= buf@.subrange(q as int, end as int));
            }
            pos = q;
        }
        Ok(AsPath { segments })
    }

    /// Whether the path can be encoded at the given width, and why not.
    pub fn check(&self, four: bool) -> (r: Result<(), EncodeError>)
        ensures
            r == as_path_check(self@, four),
    {
        let mut i: usize = 0;
        let mut long = false;
        while i < self.segments.len()
            invariant
                i <= self.segments@.len(),
                long == !segments_fit(self@.subrange(0, i as int)),
                four || forall|a: int, b: int|
                    0 <= a < i && 0 <= b < self@[a].1.len() ==> #[trigger] self@[a].1[b] <= 0xffff,
            decreases self.segments@.len() - i,
        {
            let m = &self.segments[i].members;
            if m.len() > 255 {
                long = true;
            }
            let mut j: usize = 0;
            while j < m.len()
                invariant
                    j <= m@.len(),
                    i < self@.len(),
                    m@ == self@[i as int].1,
                    four || forall|b: int| 0 <= b < j ==> #[trigger] m@[b] <= 0xffff,
                decreases m@.len() - j,
            {
                if !four && m[j] > 0xffff {
                    assert(self@[i as int].1[j as int] > 0xffff);
                    assert(!asns_fit(self@, four));
                    return Err(EncodeError::UnsupportedCapability);
                }
                j = j + 1;
            }
            proof {
                let a = self@.subrange(0, i as int);
                let b = self@.subrange(0, i + 1);
                if segments_fit(b) {
                    assert forall|k: int| 0 <= k < a.len() implies (#[trigger] a[k]).1.len() <= 255 by {
                        assert(a[k] == b[k]);
                    }
                    assert(b[i as int] == self@[i as int]);
                } else {
                    if !long {
                        assert forall|k: int| 0 <= k < b.len() implies (#[trigger] b[k]).1.len() <= 255 by {
                            if k < i {
                                assert(a[k] == b[k]);
                            }
                        }
                    }
                }
                if long && !(m@.len() > 255) {
                    let k = choose|k: int| 0 <= k < a.len() && !((#[trigger] a[k]).1.len() <= 255);
                    assert(b[k] == a[k]);
                }
            }
            i = i + 1;
        }
        assert(self@.subrange(0, self@.len() as int) =~= self@);
        if long {
            Err(EncodeError::MessageTooLong)
        } else {
            Ok(())
        }
    }

    /// Appends the wire form of the path at the given width.
    pub fn encode(&self, out: &mut Vec<u8>, four: bool)
        requires
            as_path_check(self@, four) is Ok,
        ensures
            final(out)@ == old(out)@ + as_path_bytes(self@, four),
    {
        let ghost start = out@;
        let mut i: usize = 0;
        while i < self.segments.len()
            invariant
                i <= self.segments@.len(),
                as_path_check(self@, four) is Ok,
                out@ == start + as_path_bytes(self@.subrange(0, i as int), four),
            decreases self.segments@.len() - i,
        {
            let seg = &self.segments[i];
            let ghost mid = out@;
            let code: u8 = match seg.seg_type {
                AsPathSegmentType::AsSet => 1,
                AsPathSegmentType::AsSequence => 2,
            };
            assert(self@[i as int] == seg@);
            out.push(code);
            out.push(seg.members.len() as u8);
            let mut j: usize = 0;
            while j < seg.members.len()
                invariant
                    j <= seg.members@.len(),
                    out@ == mid + seq![code, seg.members@.len() as u8] + asns_bytes(
                        seg.members@.subrange(0, j as int),
                        four,
                    ),
                    four || forall|b: int| 0 <= b < seg.members@.len() ==> #[trigger] seg.members@[b] <= 0xffff,
                decreases seg.members@.len() - j,
            {
                let x = seg.members[j];
                let ghost before = out@;
                if four {
                    put_u32(out, x);
                } else {
                    put_u16(out, x as u16);
                }
                proof {
                    let f = |y: u32| asn_bytes(y, four);
                    let a = seg.members@.subrange(0, j as int).map_values(f);
                    assert(seg.members@.subrange(0, j + 1).map_values(f) =~= a.push(asn_bytes(x, four)));
                    a.lemma_flatten_push(asn_bytes(x, four));
                    assert(out@ =~= mid + seq![code, seg.members@.len() as u8] + asns_bytes(
                        seg.members@.subrange(0, j + 1),
                        four,
                    ));
                }
                j = j + 1;
            }
            proof {
                assert(seg.members@.subrange(0, seg.members@.len() as int) =~= seg.members@);
                let f = |g: SegV| segment_bytes(g, four);
                let a = self@.subrange(0, i as int).map_values(f);
                assert(self@.subrange(0, i + 1).map_values(f) =~= a.push(segment_bytes(seg@, four)));
                a.lemma_flatten_push(segment_bytes(seg@, four));
                assert(out@ =~= start + as_path_bytes(self@.subrange(0, i + 1), four));
            }
            i = i + 1;
        }
        assert(self@.subrange(0, self@.len() as int) =~= self@);
    }
}

} // verus!
