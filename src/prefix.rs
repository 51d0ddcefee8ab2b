//! NLRI prefixes: a bit length followed by just enough address bytes.
use vstd::prelude::*;
use crate::bytes::put_bytes;
use crate::error::DecodeError;

verus! {

/// An IP prefix; `addr` holds the full address (4 bytes for IPv4, 16 for IPv6).
#[derive(Clone, Debug, PartialEq, Eq)]
pub struct IpNetwork {
    pub addr: Vec<u8>,
    pub len: u8,
}

/// A prefix as a mathematical value: address bytes and bit length.
pub type NetV = (Seq<u8>, u8);

impl View for IpNetwork {
    type V = NetV;

    open spec fn view(&self) -> NetV {
        (self.addr@, self.len)
    }
}

/// The views of a sequence of prefixes.
pub open spec fn nets_view(v: Seq<IpNetwork>) -> Seq<NetV> {
    v.map_values(|n: IpNetwork| n@)
}

/// Number of bytes that hold `len` bits.
pub open spec fn nbytes(len: u8) -> nat {
    ((len as nat) + 7) / 8
}

/// The bits of the last written byte that lie beyond the prefix length.
pub open spec fn host_mask(len: u8) -> u8 {
    0xffu8 >> ((len % 8) as u8)
}

/// The partial last byte, if any, has no bit set beyond the prefix length.
pub open spec fn tail_clear(written: Seq<u8>, len: u8) -> bool {
    len % 8 == 0 || written[nbytes(len) - 1] & host_mask(len) == 0
}

/// A prefix of an address family whose addresses have `w` bytes: the length
/// fits the address and no bit beyond it is set.
pub open spec fn net_wf(p: NetV, w: nat) -> bool {
    &&& p.0.len() == w
    &&& p.1 <= 8 * w
    &&& forall|i: int| nbytes(p.1) <= i < w ==> p.0[i] == 0
    &&& tail_clear(p.0, p.1)
}

/// `n` zero bytes.
pub open spec fn zeros(n: nat) -> Seq<u8> {
    Seq::new(n, |i: int| 0u8)
}

/// The address bytes that hold `len` bits, with every bit past `len` cleared.
pub open spec fn written_bytes(addr: Seq<u8>, len: u8) -> Seq<u8> {
    let n = nbytes(len);
    if len % 8 == 0 {
        addr.subrange(0, n as int)
    } else {
        addr.subrange(0, n as int).update(n - 1, addr[n - 1] & !host_mask(len))
    }
}

/// The wire form of one prefix.
pub open spec fn prefix_bytes(p: NetV) -> Seq<u8> {
    seq![p.1] + written_bytes(p.0, p.1)
}

/// Clearing the bits past the length leaves a byte whose bits past it are clear alone.
proof fn lemma_mask_byte(b: u8, m: u8)
    ensures
        b & m == 0 ==> b & !m == b,
        (b & !m) & m == 0,
{
    assert(b & m == 0 ==> b & !m == b) by (bit_vector);
    assert((b & !m) & m == 0) by (bit_vector);
}

/// What an encoder writes never has a bit set past the prefix length.
pub proof fn lemma_encoded_tail_clear(addr: Seq<u8>, len: u8)
    requires
        nbytes(len) <= addr.len(),
    ensures
        written_bytes(addr, len).len() == nbytes(len),
        tail_clear(written_bytes(addr, len), len),
{
    if len % 8 != 0 {
        lemma_mask_byte(addr[nbytes(len) - 1], host_mask(len));
    }
}

/// The wire form of a list of prefixes, back to back.
pub open spec fn prefixes_bytes(ps: Seq<NetV>) -> Seq<u8> {
    ps.map_values(|p: NetV| prefix_bytes(p)).flatten()
}

/// Decodes the prefix at the start of `s`, giving it and the bytes it took.
pub open spec fn decode_prefix(s: Seq<u8>, w: nat) -> Result<(NetV, nat), DecodeError> {
    if s.len() < 1 {
        Err(DecodeError::InvalidNetworkField)
    } else {
        let len = s[0];
        let n = nbytes(len);
        if len > 8 * w || s.len() < 1 + n {
            Err(DecodeError::InvalidNetworkField)
        } else {
            let written = s.subrange(1, 1 + n as int);
            if !tail_clear(written, len) {
                Err(DecodeError::InvalidNetworkField)
            } else {
                Ok(((written + zeros((w - n) as nat), len), 1 + n))
            }
        }
    }
}

/// Decodes prefixes until `s` is used up, after those already in `acc`.
pub open spec fn decode_prefixes_acc(s: Seq<u8>, w: nat, acc: Seq<NetV>) -> Result<
    Seq<NetV>,
    DecodeError,
>
    decreases s.len(),
{
    if s.len() == 0 {
        Ok(acc)
    } else {
        match decode_prefix(s, w) {
            Err(e) => Err(e),
            Ok((p, c)) => if 0 < c <= s.len() {
                decode_prefixes_acc(s.subrange(c as int, s.len() as int), w, acc.push(p))
            } else {
                Err(DecodeError::InvalidNetworkField)
            },
        }
    }
}

/// Decodes a whole prefix section.
pub open spec fn decode_prefixes(s: Seq<u8>, w: nat) -> Result<Seq<NetV>, DecodeError> {
    decode_prefixes_acc(s, w, Seq::empty())
}

/// A decoded prefix is well formed and takes at least one byte.
pub proof fn lemma_decode_prefix_wf(s: Seq<u8>, w: nat)
    ensures
        decode_prefix(s, w) matches Ok((p, c)) ==> net_wf(p, w) && 1 <= c <= s.len() && c == 1
            + nbytes(p.1),
{
    if let Ok((p, c)) = decode_prefix(s, w) {
        let n = nbytes(s[0]);
        let written = s.subrange(1, 1 + n as int);
        assert((written + zeros((w - n) as nat)).subrange(0, n as int) =~= written);
        assert(tail_clear(p.0, p.1));
    }
}

/// Decoding the wire form of a well-formed prefix, whatever follows it, gives
/// the prefix back.
pub proof fn lemma_prefix_round_trip(p: NetV, w: nat, rest: Seq<u8>)
    requires
        net_wf(p, w),
    ensures
        decode_prefix(prefix_bytes(p) + rest, w) == Ok::<(NetV, nat), DecodeError>(
            (p, 1 + nbytes(p.1)),
        ),
{
    let s = prefix_bytes(p) + rest;
    let n = nbytes(p.1);
    if p.1 % 8 != 0 {
        lemma_mask_byte(p.0[n - 1], host_mask(p.1));
    }
    assert(written_bytes(p.0, p.1) =~= p.0.subrange(0, n as int));
    assert(s[0] == p.1);
    assert(s.subrange(1, 1 + n as int) =~= p.0.subrange(0, n as int));
    assert(p.0.subrange(0, n as int) + zeros((w - n) as nat) =~= p.0);
}

/// Decoding the wire form of a list of well-formed prefixes gives the list.
pub proof fn lemma_prefixes_round_trip(ps: Seq<NetV>, w: nat, acc: Seq<NetV>)
    requires
        forall|i: int| 0 <= i < ps.len() ==> net_wf(#[trigger] ps[i], w),
    ensures
        decode_prefixes_acc(prefixes_bytes(ps), w, acc) == Ok::<Seq<NetV>, DecodeError>(acc + ps),
    decreases ps.len(),
{
    if ps.len() == 0 {
        assert(prefixes_bytes(ps) =~= Seq::<u8>::empty());
        assert(acc + ps =~= acc);
    } else {
        let m = ps.map_values(|p: NetV| prefix_bytes(p));
        let tail = ps.drop_first();
        assert(m.drop_first() =~= tail.map_values(|p: NetV| prefix_bytes(p)));
        assert(net_wf(ps[0], w));
        let s = prefixes_bytes(ps);
        assert(s == prefix_bytes(ps[0]) + prefixes_bytes(tail));
        lemma_prefix_round_trip(ps[0], w, prefixes_bytes(tail));
        let c = 1 + nbytes(ps[0].1);
        assert(s.subrange(c as int, s.len() as int) =~= prefixes_bytes(tail));
        assert forall|i: int| 0 <= i < tail.len() implies net_wf(#[trigger] tail[i], w) by {
            assert(tail[i] == ps[i + 1]);
        }
        lemma_prefixes_round_trip(tail, w, acc.push(ps[0]));
        assert(acc.push(ps[0]) + tail =~= acc + ps);
    }
}

/// Decoding a whole section of wire prefixes gives the list of their values.
pub proof fn lemma_decode_prefixes_round_trip(ps: Seq<NetV>, w: nat)
    requires
        forall|i: int| 0 <= i < ps.len() ==> net_wf(#[trigger] ps[i], w),
    ensures
        decode_prefixes(prefixes_bytes(ps), w) == Ok::<Seq<NetV>, DecodeError>(ps),
{
    lemma_prefixes_round_trip(ps, w, Seq::empty());
    assert(Seq::<NetV>::empty() + ps =~= ps);
}

/// Every prefix that a successful decode yields is well formed.
pub proof fn lemma_decode_prefixes_wf(s: Seq<u8>, w: nat, acc: Seq<NetV>)
    requires
        forall|i: int| 0 <= i < acc.len() ==> net_wf(#[trigger] acc[i], w),
    ensures
        decode_prefixes_acc(s, w, acc) matches Ok(ps) ==> forall|i: int|
            0 <= i < ps.len() ==> net_wf(#[trigger] ps[i], w),
    decreases s.len(),
{
    if s.len() > 0 {
        lemma_decode_prefix_wf(s, w);
        if let Ok((p, c)) = decode_prefix(s, w) {
            let acc2 = acc.push(p);
            assert forall|i: int| 0 <= i < acc2.len() implies net_wf(#[trigger] acc2[i], w) by {
                if i < acc.len() {
                    assert(acc2[i] == acc[i]);
                }
            }
            lemma_decode_prefixes_wf(s.subrange(c as int, s.len() as int), w, acc2);
        }
    }
}

/// Decoding a prefix section, encoding the result and decoding again gives
/// the same prefixes.
pub proof fn lemma_prefixes_idempotent(s: Seq<u8>, w: nat)
    ensures
        decode_prefixes(s, w) matches Ok(ps) ==> decode_prefixes(prefixes_bytes(ps), w) == Ok::<
            Seq<NetV>,
            DecodeError,
        >(ps),
{
    lemma_decode_prefixes_wf(s, w, Seq::empty());
    if let Ok(ps) = decode_prefixes(s, w) {
        lemma_decode_prefixes_round_trip(ps, w);
    }
}

/// Re-encoding the prefixes of a successful decode takes as many bytes as
/// the section they came from.
pub proof fn lemma_decoded_prefixes_len(s: Seq<u8>, w: nat, acc: Seq<NetV>)
    ensures
        decode_prefixes_acc(s, w, acc) matches Ok(r) ==> {
            &&& r.len() >= acc.len()
            &&& r.subrange(0, acc.len() as int) == acc
            &&& prefixes_bytes(r.subrange(acc.len() as int, r.len() as int)).len() == s.len()
        },
    decreases s.len(),
{
    if s.len() == 0 {
        assert(acc.subrange(0, acc.len() as int) =~= acc);
        assert(prefixes_bytes(acc.subrange(acc.len() as int, acc.len() as int)) =~= Seq::<u8>::empty());
    } else {
        lemma_decode_prefix_wf(s, w);
        if let Ok((p, c)) = decode_prefix(s, w) {
            let acc2 = acc.push(p);
            let s2 = s.subrange(c as int, s.len() as int);
            lemma_decoded_prefixes_len(s2, w, acc2);
            lemma_encoded_tail_clear(p.0, p.1);
            if let Ok(r) = decode_prefixes_acc(s, w, acc) {
                assert(r.subrange(0, acc.len() as int) =~= r.subrange(0, acc2.len() as int).subrange(0, acc.len() as int));
                assert(r.subrange(0, acc.len() as int) =~= acc);
                assert(r[acc.len() as int] == r.subrange(0, acc2.len() as int)[acc.len() as int]);
                let q = r.subrange(acc.len() as int, r.len() as int);
                let q2 = r.subrange(acc2.len() as int, r.len() as int);
                assert(q.drop_first() =~= q2);
                let f = |x: NetV| prefix_bytes(x);
                assert(q.map_values(f).drop_first() =~= q2.map_values(f));
                assert(prefixes_bytes(q) == prefix_bytes(q[0]) + prefixes_bytes(q2));
            }
        }
    }
}

/// A default route takes its length byte alone; a full-length prefix carries
/// the whole address; a bit set beyond the length is rejected.
pub proof fn lemma_prefix_boundaries(addr: Seq<u8>, w: nat, s: Seq<u8>)
    requires
        addr.len() == w,
    ensures
        prefix_bytes((addr, 0u8)) == seq![0u8],
        w <= 31 ==> prefix_bytes((addr, (8 * w) as u8)) == seq![(8 * w) as u8] + addr,
        s.len() >= 1 && s[0] % 8 != 0 && s.len() >= 1 + nbytes(s[0]) && s[nbytes(s[0]) as int]
            & host_mask(s[0]) != 0 ==> decode_prefix(s, w) is Err,
{
    assert(written_bytes(addr, 0u8) =~= Seq::<u8>::empty());
    assert(prefix_bytes((addr, 0u8)) =~= seq![0u8]);
    if w <= 31 {
        let len = (8 * w) as u8;
        assert(nbytes(len) == w);
        assert(prefix_bytes((addr, len)) =~= seq![len] + addr);
    }
    if s.len() >= 1 && s[0] % 8 != 0 && s.len() >= 1 + nbytes(s[0]) {
        let written = s.subrange(1, 1 + nbytes(s[0]) as int);
        assert(written[nbytes(s[0]) - 1] == s[nbytes(s[0]) as int]);
    }
}

impl IpNetwork {
    /// An IPv4 prefix, if its length is at most 32 and no host bit is set.
    pub fn v4(octets: [u8; 4], len: u8) -> (r: Option<IpNetwork>)
        ensures
            r matches Some(n) ==> n@ == (octets@, len),
            r is Some <==> net_wf((octets@, len), 4),
    {
        let mut addr: Vec<u8> = Vec::new();
        addr.push(octets[0]);
        addr.push(octets[1]);
        addr.push(octets[2]);
        addr.push(octets[3]);
        assert(addr@ =~= octets@);
        Self::checked(addr, len)
    }

    /// An IPv6 prefix, if its length is at most 128 and no host bit is set.
    pub fn v6(octets: [u8; 16], len: u8) -> (r: Option<IpNetwork>)
        ensures
            r matches Some(n) ==> n@ == (octets@, len),
            r is Some <==> net_wf((octets@, len), 16),
    {
        let mut addr: Vec<u8> = Vec::new();
        let mut i: usize = 0;
        while i < 16
            invariant
                i <= 16,
                addr@ == octets@.subrange(0, i as int),
            decreases 16 - i,
        {
            addr.push(octets[i]);
            i = i + 1;
            assert(addr@ =~= octets@.subrange(0, i as int));
        }
        assert(addr@ =~= octets@);
        Self::checked(addr, len)
    }

    /// The prefix of `addr` and `len`, if it is well formed for the address's width.
    fn checked(addr: Vec<u8>, len: u8) -> (r: Option<IpNetwork>)
        requires
            addr@.len() == 4 || addr@.len() == 16,
        ensures
            r matches Some(n) ==> n@ == (addr@, len),
            r is Some <==> net_wf((addr@, len), addr@.len()),
    {
        let w = addr.len();
        if len as usize > 8 * w {
            return None;
        }
        let n = (len as usize + 7) / 8;
        let mut i = n;
        while i < w
            invariant
                n <= i <= w,
                w == addr@.len(),
                n == nbytes(len),
                forall|j: int| n <= j < i ==> addr@[j] == 0,
            decreases w - i,
        {
            if addr[i] != 0 {
                return None;
            }
            i = i + 1;
        }
        if len % 8 != 0 && addr[n - 1] & (0xffu8 >> (len % 8)) != 0 {
            return None;
        }
        Some(IpNetwork { addr, len })
    }
}

/// Decodes the prefix at `pos`, within the section that ends at `end`.
pub fn read_prefix(buf: &[u8], pos: usize, end: usize, w: usize) -> (r: Result<
    (IpNetwork, usize),
    DecodeError,
>)
    requires
        pos <= end <= buf@.len(),
        w == 4 || w == 16,
    ensures
        match (r, decode_prefix(buf@.subrange(pos as int, end as int), w as nat)) {
            (Ok((n, k)), Ok((v, c))) => n@ == v && k == pos + c,
            (Err(e), Err(f)) => e == f,
            _ => false,
        },
{
    let ghost s = buf@.subrange(pos as int, end as int);
    if pos >= end {
        return Err(DecodeError::InvalidNetworkField);
    }
    let len = buf[pos];
    let n = (len as usize + 7) / 8;
    if len as usize > 8 * w || end - pos < 1 + n {
        return Err(DecodeError::InvalidNetworkField);
    }
    let mut addr = crate::bytes::copy_range(buf, pos + 1, n);
    assert(addr@ =~= s.subrange(1, 1 + n as int));
    if len % 8 != 0 && addr[n - 1] & (0xffu8 >> (len % 8)) != 0 {
        return Err(DecodeError::InvalidNetworkField);
    }
    let ghost written = addr@;
    let mut i = n;
    while i < w
        invariant
            n <= i <= w,
            addr@ == written + zeros((i - n) as nat),
        decreases w - i,
    {
        addr.push(0u8);
        i = i + 1;
        assert(addr@ =~= written + zeros((i - n) as nat));
    }
    Ok((IpNetwork { addr, len }, pos + 1 + n))
}

/// Decodes the prefix section `buf[start..end]`.
pub fn read_prefixes(buf: &[u8], start: usize, end: usize, w: usize) -> (r: Result<
    Vec<IpNetwork>,
    DecodeError,
>)
    requires
        start <= end <= buf@.len(),
        w == 4 || w == 16,
    ensures
        match (r, decode_prefixes(buf@.subrange(start as int, end as int), w as nat)) {
            (Ok(v), Ok(sv)) => nets_view(v@) == sv,
            (Err(e), Err(f)) => e == f,
            _ => false,
        },
{
    let mut out: Vec<IpNetwork> = Vec::new();
    let mut pos = start;
    assert(nets_view(out@) =~= Seq::<NetV>::empty());
    while pos < end
        invariant
            start <= pos <= end <= buf@.len(),
            w == 4 || w == 16,
            decode_prefixes(buf@.subrange(start as int, end as int), w as nat)
                == decode_prefixes_acc(buf@.subrange(pos as int, end as int), w as nat, nets_view(out@)),
        decreases end - pos,
    {
        let ghost s = buf@.subrange(pos as int, end as int);
        match read_prefix(buf, pos, end, w) {
            Err(e) => {
                return Err(e);
            },
            Ok((n, k)) => {
                proof {
                    lemma_decode_prefix_wf(s, w as nat);
                    assert(s.subrange(k - pos, s.len() as int) =~= buf@.subrange(k as int, end as int));
                }
                let ghost before = out@;
                out.push(n);
                assert(nets_view(out@) =~= nets_view(before).push(n@));
                pos = k;
            },
        }
    }
    assert(buf@.subrange(pos as int, end as int).len() == 0);
    Ok(out)
}

/// Appends the wire form of one prefix.
pub fn write_prefix(out: &mut Vec<u8>, n: &IpNetwork)
    requires
        nbytes(n.len) <= n.addr@.len(),
    ensures
        final(out)@ == old(out)@ + prefix_bytes(n@),
{
    out.push(n.len);
    let nb = (n.len as usize + 7) / 8;
    if n.len % 8 == 0 {
        put_bytes(out, &n.addr.as_slice()[0..nb]);
    } else {
        put_bytes(out, &n.addr.as_slice()[0..nb - 1]);
        out.push(n.addr[nb - 1] & !(0xffu8 >> (n.len % 8)));
    }
    assert(final(out)@ =~= old(out)@ + prefix_bytes(n@));
}

/// Appends the wire form of a list of prefixes.
pub fn write_prefixes(out: &mut Vec<u8>, v: &Vec<IpNetwork>)
    requires
        forall|i: int| 0 <= i < v@.len() ==> nbytes(#[trigger] v@[i].len) <= v@[i].addr@.len(),
    ensures
        final(out)@ == old(out)@ + prefixes_bytes(nets_view(v@)),
{
    let ghost start = out@;
    let mut i: usize = 0;
    while i < v.len()
        invariant
            i <= v@.len(),
            forall|j: int| 0 <= j < v@.len() ==> nbytes(#[trigger] v@[j].len) <= v@[j].addr@.len(),
            out@ == start + prefixes_bytes(nets_view(v@.subrange(0, i as int))),
        decreases v@.len() - i,
    {
        write_prefix(out, &v[i]);
        proof {
            let f = |p: NetV| prefix_bytes(p);
            let a = nets_view(v@.subrange(0, i as int)).map_values(f);
            let b = nets_view(v@.subrange(0, i + 1)).map_values(f);
            assert(b =~= a.push(prefix_bytes(v@[i as int]@)));
            a.lemma_flatten_push(prefix_bytes(v@[i as int]@));
        }
        i = i + 1;
    }
    assert(v@.subrange(0, v@.len() as int) =~= v@);
}

} // verus!
