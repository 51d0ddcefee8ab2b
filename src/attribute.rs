//! Path attributes: the flags/type/length envelope and the body of each known type.
use vstd::prelude::*;
use crate::aspath::{as_path_bytes, as_path_check, asn_at, asn_bytes, asn_width, decode_as_path, AsPath, SegV};
use crate::bytes::{be32, copy_range, put_bytes, put_u16, put_u32, read_array, read_u16, read_u32, u16_bytes, u32_bytes};
use crate::community::{records, split_records, Comm, CommList, Community, ExtComm, Extv6Comm, LargeComm};
use crate::error::DecodeError;
use crate::nlri::{decode_mp_reach, decode_mp_unreach, mp_reach_bytes, mp_unreach_bytes, prefixes_sized, MpReachNlri, MpReachV, MpUnreachNlri, MpUnreachV};

verus! {

/// The ORIGIN attribute's value.
#[derive(Clone, Copy, Debug, PartialEq, Eq, Structural)]
pub enum Origin {
    Igp,
    Egp,
    Incomplete,
}

/// The AGGREGATOR (or AS4_AGGREGATOR) attribute: AS number and router identifier.
#[derive(Clone, Copy, Debug, PartialEq, Eq)]
pub struct Aggregator {
    pub asn: u32,
    pub identifier: [u8; 4],
}

impl View for Aggregator {
    type V = (u32, Seq<u8>);

    open spec fn view(&self) -> (u32, Seq<u8>) {
        (self.asn, self.identifier@)
    }
}

/// The CLUSTER_LIST attribute: route reflector cluster identifiers in order.
#[derive(Clone, Debug, PartialEq, Eq)]
pub struct ClusterList(pub Vec<[u8; 4]>);

impl View for ClusterList {
    type V = Seq<Seq<u8>>;

    open spec fn view(&self) -> Seq<Seq<u8>> {
        records(self.0@)
    }
}

impl<T: Community> View for CommList<T> {
    type V = Seq<Seq<u8>>;

    open spec fn view(&self) -> Seq<Seq<u8>> {
        records(self.0@)
    }
}

impl Community for [u8; 4] {
    open spec fn wire(&self) -> Seq<u8> {
        self@
    }

    open spec fn width() -> nat {
        4
    }

    fn record_width() -> usize {
        4
    }

    fn read(buf: &[u8], pos: usize) -> (r: Self) {
        read_array(buf, pos, [0u8; 4])
    }

    fn write(&self, out: &mut Vec<u8>) {
        crate::bytes::put_bytes(out, self);
    }
}

/// An attribute whose type code is not understood, kept as it came.
#[derive(Clone, Debug, PartialEq, Eq)]
pub struct UnknownAttr {
    pub flags: u8,
    pub attr_type: u8,
    pub value: Vec<u8>,
}

/// A raw attribute record: flags, type code and body.
pub type RawV = (u8, u8, Seq<u8>);

impl View for UnknownAttr {
    type V = RawV;

    open spec fn view(&self) -> RawV {
        (self.flags, self.attr_type, self.value@)
    }
}

/// The view of an optional value.
pub open spec fn opt_view<T: View>(o: Option<T>) -> Option<T::V> {
    match o {
        Some(x) => Some(x@),
        None => None,
    }
}

/// The attributes met so far while decoding an attribute section.
#[derive(Clone, Debug)]
pub struct AttrSet {
    pub origin: Option<Origin>,
    pub as_path: Option<AsPath>,
    pub nexthop: Option<[u8; 4]>,
    pub med: Option<u32>,
    pub local_pref: Option<u32>,
    pub atomic_aggregate: bool,
    pub aggregator: Option<Aggregator>,
    pub comm: Option<CommList<Comm>>,
    pub originator_id: Option<[u8; 4]>,
    pub cluster_list: Option<ClusterList>,
    pub mp_reach: Option<MpReachNlri>,
    pub mp_unreach: Option<MpUnreachNlri>,
    pub ext_comm: Option<CommList<ExtComm>>,
    pub as4_path: Option<AsPath>,
    pub as4_aggregator: Option<Aggregator>,
    pub extv6_comm: Option<CommList<Extv6Comm>>,
    pub large_comm: Option<CommList<LargeComm>>,
    pub unknown: Vec<UnknownAttr>,
}

/// An attribute set as a mathematical value.
pub struct AttrSetV {
    pub origin: Option<Origin>,
    pub as_path: Option<Seq<SegV>>,
    pub nexthop: Option<Seq<u8>>,
    pub med: Option<u32>,
    pub local_pref: Option<u32>,
    pub atomic_aggregate: bool,
    pub aggregator: Option<(u32, Seq<u8>)>,
    pub comm: Option<Seq<Seq<u8>>>,
    pub originator_id: Option<Seq<u8>>,
    pub cluster_list: Option<Seq<Seq<u8>>>,
    pub mp_reach: Option<MpReachV>,
    pub mp_unreach: Option<MpUnreachV>,
    pub ext_comm: Option<Seq<Seq<u8>>>,
    pub as4_path: Option<Seq<SegV>>,
    pub as4_aggregator: Option<(u32, Seq<u8>)>,
    pub extv6_comm: Option<Seq<Seq<u8>>>,
    pub large_comm: Option<Seq<Seq<u8>>>,
    pub unknown: Seq<RawV>,
}

impl View for AttrSet {
    type V = AttrSetV;

    open spec fn view(&self) -> AttrSetV {
        AttrSetV {
            origin: self.origin,
            as_path: opt_view(self.as_path),
            nexthop: opt_view(self.nexthop),
            med: self.med,
            local_pref: self.local_pref,
            atomic_aggregate: self.atomic_aggregate,
            aggregator: opt_view(self.aggregator),
            comm: opt_view(self.comm),
            originator_id: opt_view(self.originator_id),
            cluster_list: opt_view(self.cluster_list),
            mp_reach: opt_view(self.mp_reach),
            mp_unreach: opt_view(self.mp_unreach),
            ext_comm: opt_view(self.ext_comm),
            as4_path: opt_view(self.as4_path),
            as4_aggregator: opt_view(self.as4_aggregator),
            extv6_comm: opt_view(self.extv6_comm),
            large_comm: opt_view(self.large_comm),
            unknown: self.unknown@.map_values(|u: UnknownAttr| u@),
        }
    }
}

/// The optional and transitive bits that each recognized type code requires.
pub open spec fn expected_flags(code: u8) -> Option<u8> {
    if code == 1 || code == 2 || code == 3 || code == 5 || code == 6 {
        Some(0x40u8)
    } else if code == 4 || code == 9 || code == 10 || code == 14 || code == 15 {
        Some(0x80u8)
    } else if code == 7 || code == 8 || code == 16 || code == 17 || code == 18 || code == 25
        || code == 32 {
        Some(0xc0u8)
    } else {
        None
    }
}

/// The set holds an attribute of type `code`.
pub open spec fn is_present(st: AttrSetV, code: u8) -> bool {
    if code == 1 {
        st.origin is Some
    } else if code == 2 {
        st.as_path is Some
    } else if code == 3 {
        st.nexthop is Some
    } else if code == 4 {
        st.med is Some
    } else if code == 5 {
        st.local_pref is Some
    } else if code == 6 {
        st.atomic_aggregate
    } else if code == 7 {
        st.aggregator is Some
    } else if code == 8 {
        st.comm is Some
    } else if code == 9 {
        st.originator_id is Some
    } else if code == 10 {
        st.cluster_list is Some
    } else if code == 14 {
        st.mp_reach is Some
    } else if code == 15 {
        st.mp_unreach is Some
    } else if code == 16 {
        st.ext_comm is Some
    } else if code == 17 {
        st.as4_path is Some
    } else if code == 18 {
        st.as4_aggregator is Some
    } else if code == 25 {
        st.extv6_comm is Some
    } else if code == 32 {
        st.large_comm is Some
    } else {
        exists|i: int| 0 <= i < st.unknown.len() && (#[trigger] st.unknown[i]).1 == code
    }
}

/// The ORIGIN value of a wire code.
pub open spec fn origin_of(b: u8) -> Origin {
    if b == 0 {
        Origin::Igp
    } else if b == 1 {
        Origin::Egp
    } else {
        Origin::Incomplete
    }
}

/// An AGGREGATOR body read with AS numbers of the given width.
pub open spec fn aggregator_of(s: Seq<u8>, four: bool) -> (u32, Seq<u8>) {
    (asn_at(s, four), s.subrange(asn_width(four) as int, asn_width(four) + 4 as int))
}

/// Decodes the body of a recognized attribute into the set.
pub open spec fn decode_body(st: AttrSetV, code: u8, s: Seq<u8>, four: bool) -> Result<
    AttrSetV,
    DecodeError,
> {
    if code == 1 {
        if s.len() != 1 {
            Err(DecodeError::AttributeLengthError(code))
        } else if s[0] > 2 {
            Err(DecodeError::InvalidOrigin)
        } else {
            Ok(AttrSetV { origin: Some(origin_of(s[0])), ..st })
        }
    } else if code == 2 || code == 17 {
        match decode_as_path(s, code == 17 || four) {
            Err(e) => Err(e),
            Ok(p) => if code == 2 {
                Ok(AttrSetV { as_path: Some(p), ..st })
            } else {
                Ok(AttrSetV { as4_path: Some(p), ..st })
            },
        }
    } else if code == 3 || code == 4 || code == 5 || code == 9 {
        if s.len() != 4 {
            Err(DecodeError::AttributeLengthError(code))
        } else if code == 3 {
            Ok(AttrSetV { nexthop: Some(s), ..st })
        } else if code == 4 {
            Ok(AttrSetV { med: Some(be32(s[0], s[1], s[2], s[3])), ..st })
        } else if code == 5 {
            Ok(AttrSetV { local_pref: Some(be32(s[0], s[1], s[2], s[3])), ..st })
        } else {
            Ok(AttrSetV { originator_id: Some(s), ..st })
        }
    } else if code == 6 {
        if s.len() != 0 {
            Err(DecodeError::AttributeLengthError(code))
        } else {
            Ok(AttrSetV { atomic_aggregate: true, ..st })
        }
    } else if code == 7 || code == 18 {
        let f = code == 18 || four;
        if s.len() != asn_width(f) + 4 {
            Err(DecodeError::AttributeLengthError(code))
        } else if code == 7 {
            Ok(AttrSetV { aggregator: Some(aggregator_of(s, f)), ..st })
        } else {
            Ok(AttrSetV { as4_aggregator: Some(aggregator_of(s, f)), ..st })
        }
    } else if code == 14 {
        match decode_mp_reach(s) {
            Err(e) => Err(e),
            Ok(m) => Ok(AttrSetV { mp_reach: Some(m), ..st }),
        }
    } else if code == 15 {
        match decode_mp_unreach(s) {
            Err(e) => Err(e),
            Ok(m) => Ok(AttrSetV { mp_unreach: Some(m), ..st }),
        }
    } else {
        let k: nat = if code == 8 || code == 10 {
            4
        } else if code == 16 {
            8
        } else if code == 25 {
            20
        } else {
            12
        };
        match split_records(s, k, code, Seq::empty()) {
            Err(e) => Err(e),
            Ok(rs) => if code == 8 {
                Ok(AttrSetV { comm: Some(rs), ..st })
            } else if code == 10 {
                Ok(AttrSetV { cluster_list: Some(rs), ..st })
            } else if code == 16 {
                Ok(AttrSetV { ext_comm: Some(rs), ..st })
            } else if code == 25 {
                Ok(AttrSetV { extv6_comm: Some(rs), ..st })
            } else {
                Ok(AttrSetV { large_comm: Some(rs), ..st })
            },
        }
    }
}

/// Adds one attribute record to the set: flags are checked against the type
/// (the partial bit only an optional transitive attribute may set),
/// a repeated type is refused, an unrecognized optional type is kept as it came.
pub open spec fn apply_attr(st: AttrSetV, flags: u8, code: u8, s: Seq<u8>, four: bool) -> Result<
    AttrSetV,
    DecodeError,
> {
    match expected_flags(code) {
        Some(f) => if flags & 0xc0 != f || (f != 0xc0 && flags & 0x20 != 0) {
            Err(DecodeError::AttributeFlagsError(code))
        } else if is_present(st, code) {
            Err(DecodeError::MalformedAttributeList)
        } else {
            decode_body(st, code, s, four)
        },
        None => if flags & 0x80 == 0 {
            Err(DecodeError::UnrecognizedWellKnownAttribute(code))
        } else if is_present(st, code) {
            Err(DecodeError::MalformedAttributeList)
        } else {
            Ok(AttrSetV { unknown: st.unknown.push((flags, code, s)), ..st })
        },
    }
}

/// Header size of the record at the start of `s`: four bytes with the
/// extended-length flag, else three.
pub open spec fn header_len(s: Seq<u8>) -> nat {
    if s[0] & 0x10 != 0 {
        4
    } else {
        3
    }
}

/// Body length of the record at the start of `s`.
pub open spec fn body_len(s: Seq<u8>) -> nat {
    if s[0] & 0x10 != 0 {
        crate::bytes::be16(s[2], s[3]) as nat
    } else {
        s[2] as nat
    }
}

/// Decodes attribute records until `s` is used up, into the set `st`.
pub open spec fn decode_attr_list(s: Seq<u8>, four: bool, st: AttrSetV) -> Result<
    AttrSetV,
    DecodeError,
>
    decreases s.len(),
{
    if s.len() == 0 {
        Ok(st)
    } else if s.len() < 3 || s.len() < header_len(s) || s.len() < header_len(s) + body_len(s) {
        Err(DecodeError::MalformedAttributeList)
    } else {
        let h = header_len(s);
        let n = body_len(s);
        match apply_attr(st, s[0], s[1], s.subrange(h as int, (h + n) as int), four) {
            Err(e) => Err(e),
            Ok(st2) => decode_attr_list(s.subrange((h + n) as int, s.len() as int), four, st2),
        }
    }
}

/// The set before any attribute is met.
pub open spec fn empty_set() -> AttrSetV {
    AttrSetV {
        origin: None,
        as_path: None,
        nexthop: None,
        med: None,
        local_pref: None,
        atomic_aggregate: false,
        aggregator: None,
        comm: None,
        originator_id: None,
        cluster_list: None,
        mp_reach: None,
        mp_unreach: None,
        ext_comm: None,
        as4_path: None,
        as4_aggregator: None,
        extv6_comm: None,
        large_comm: None,
        unknown: Seq::empty(),
    }
}

/// Decodes a whole attribute section.
pub open spec fn decode_attrs(s: Seq<u8>, four: bool) -> Result<AttrSetV, DecodeError> {
    decode_attr_list(s, four, empty_set())
}

impl AttrSet {
    /// The empty set.
    pub fn new() -> (r: AttrSet)
        ensures
            r@ == empty_set(),
    {
        let r = AttrSet {
            origin: None,
            as_path: None,
            nexthop: None,
            med: None,
            local_pref: None,
            atomic_aggregate: false,
            aggregator: None,
            comm: None,
            originator_id: None,
            cluster_list: None,
            mp_reach: None,
            mp_unreach: None,
            ext_comm: None,
            as4_path: None,
            as4_aggregator: None,
            extv6_comm: None,
            large_comm: None,
            unknown: Vec::new(),
        };
        assert(r@.unknown =~= Seq::<RawV>::empty());
        r
    }

    /// Whether an attribute of type `code` is in the set.
    pub fn has(&self, code: u8) -> (r: bool)
        ensures
            r == is_present(self@, code),
    {
        if code == 1 {
            self.origin.is_some()
        } else if code == 2 {
            self.as_path.is_some()
        } else if code == 3 {
            self.nexthop.is_some()
        } else if code == 4 {
            self.med.is_some()
        } else if code == 5 {
            self.local_pref.is_some()
        } else if code == 6 {
            self.atomic_aggregate
        } else if code == 7 {
            self.aggregator.is_some()
        } else if code == 8 {
            self.comm.is_some()
        } else if code == 9 {
            self.originator_id.is_some()
        } else if code == 10 {
            self.cluster_list.is_some()
        } else if code == 14 {
            self.mp_reach.is_some()
        } else if code == 15 {
            self.mp_unreach.is_some()
        } else if code == 16 {
            self.ext_comm.is_some()
        } else if code == 17 {
            self.as4_path.is_some()
        } else if code == 18 {
            self.as4_aggregator.is_some()
        } else if code == 25 {
            self.extv6_comm.is_some()
        } else if code == 32 {
            self.large_comm.is_some()
        } else {
            self.has_unknown(code)
        }
    }

    /// Whether an unrecognized attribute of type `code` is in the set.
    fn has_unknown(&self, code: u8) -> (r: bool)
        ensures
            r == exists|i: int| 0 <= i < self@.unknown.len() && (#[trigger] self@.unknown[i]).1 == code,
    {
        let mut i: usize = 0;
        while i < self.unknown.len()
            invariant
                i <= self.unknown@.len(),
                self@.unknown.len() == self.unknown@.len(),
                forall|j: int| 0 <= j < i ==> (#[trigger] self@.unknown[j]).1 != code,
            decreases self.unknown@.len() - i,
        {
            if self.unknown[i].attr_type == code {
                assert(self@.unknown[i as int].1 == code);
                return true;
            }
            i = i + 1;
        }
        false
    }

    /// Decodes the body `buf[start..end]` of recognized attribute `code` into the set.
    fn decode_body(&mut self, buf: &[u8], code: u8, start: usize, end: usize, four: bool) -> (r:
        Result<(), DecodeError>)
        requires
            start <= end <= buf@.len(),
            expected_flags(code) is Some,
        ensures
            match decode_body(old(self)@, code, buf@.subrange(start as int, end as int), four) {
                Ok(v) => r is Ok && final(self)@ == v,
                Err(e) => r == Err::<(), DecodeError>(e),
            },
    {
        let ghost s = buf@.subrange(start as int, end as int);
        let len = end - start;
        if code == 1 {
            if len != 1 {
                return Err(DecodeError::AttributeLengthError(code));
            }
            let b = buf[start];
            if b > 2 {
                return Err(DecodeError::InvalidOrigin);
            }
            self.origin = Some(if b == 0 { Origin::Igp } else if b == 1 { Origin::Egp } else { Origin::Incomplete });
        } else if code == 2 || code == 17 {
            let p = AsPath::decode(buf, start, end, code == 17 || four)?;
            if code == 2 {
                self.as_path = Some(p);
            } else {
                self.as4_path = Some(p);
            }
        } else if code == 3 || code == 4 || code == 5 || code == 9 {
            if len != 4 {
                return Err(DecodeError::AttributeLengthError(code));
            }
            if code == 3 || code == 9 {
                let a = read_array(buf, start, [0u8; 4]);
                if code == 3 {
                    self.nexthop = Some(a);
                } else {
                    self.originator_id = Some(a);
                }
            } else {
                let x = read_u32(buf, start);
                if code == 4 {
                    self.med = Some(x);
                } else {
                    self.local_pref = Some(x);
                }
            }
        } else if code == 6 {
            if len != 0 {
                return Err(DecodeError::AttributeLengthError(code));
            }
            self.atomic_aggregate = true;
        } else if code == 7 || code == 18 {
            let f = code == 18 || four;
            let w: usize = if f { 4 } else { 2 };
            if len != w + 4 {
                return Err(DecodeError::AttributeLengthError(code));
            }
            let asn = if f { read_u32(buf, start) } else { read_u16(buf, start) as u32 };
            let identifier = read_array(buf, start + w, [0u8; 4]);
            assert(identifier@ =~= s.subrange(w as int, w + 4));
            let agg = Aggregator { asn, identifier };
            if code == 7 {
                self.aggregator = Some(agg);
            } else {
                self.as4_aggregator = Some(agg);
            }
        } else if code == 14 {
            let m = MpReachNlri::decode(buf, start, end)?;
            self.mp_reach = Some(m);
        } else if code == 15 {
            let m = MpUnreachNlri::decode(buf, start, end)?;
            self.mp_unreach = Some(m);
        } else if code == 8 {
            let l = CommList::<Comm>::decode(buf, start, end, code)?;
            self.comm = Some(l);
        } else if code == 10 {
            let l = CommList::<[u8; 4]>::decode(buf, start, end, code)?;
            self.cluster_list = Some(ClusterList(l.0));
        } else if code == 16 {
            let l = CommList::<ExtComm>::decode(buf, start, end, code)?;
            self.ext_comm = Some(l);
        } else if code == 25 {
            let l = CommList::<Extv6Comm>::decode(buf, start, end, code)?;
            self.extv6_comm = Some(l);
        } else {
            let l = CommList::<LargeComm>::decode(buf, start, end, code)?;
            self.large_comm = Some(l);
        }
        Ok(())
    }

    /// Adds the record with `flags` and `code` whose body is `buf[start..end]`.
    pub fn apply(&mut self, buf: &[u8], flags: u8, code: u8, start: usize, end: usize, four: bool) -> (r:
        Result<(), DecodeError>)
        requires
            start <= end <= buf@.len(),
        ensures
            match apply_attr(old(self)@, flags, code, buf@.subrange(start as int, end as int), four) {
                Ok(v) => r is Ok && final(self)@ == v,
                Err(e) => r == Err::<(), DecodeError>(e),
            },
    {
        let expected: Option<u8> = if code == 1 || code == 2 || code == 3 || code == 5 || code == 6 {
            Some(0x40u8)
        } else if code == 4 || code == 9 || code == 10 || code == 14 || code == 15 {
            Some(0x80u8)
        } else if code == 7 || code == 8 || code == 16 || code == 17 || code == 18 || code == 25
            || code == 32 {
            Some(0xc0u8)
        } else {
            None
        };
        match expected {
            Some(f) => {
                if flags & 0xc0 != f || (f != 0xc0 && flags & 0x20 != 0) {
                    return Err(DecodeError::AttributeFlagsError(code));
                }
                if self.has(code) {
                    return Err(DecodeError::MalformedAttributeList);
                }
                self.decode_body(buf, code, start, end, four)
            },
            None => {
                if flags & 0x80 == 0 {
                    return Err(DecodeError::UnrecognizedWellKnownAttribute(code));
                }
                if self.has(code) {
                    return Err(DecodeError::MalformedAttributeList);
                }
                let value = copy_range(buf, start, end - start);
                let u = UnknownAttr { flags, attr_type: code, value };
                let ghost before = self.unknown@;
                self.unknown.push(u);
                assert(self.unknown@.map_values(|u: UnknownAttr| u@) =~= before.map_values(
                    |u: UnknownAttr| u@,
                ).push(u@));
                Ok(())
            },
        }
    }

    /// Decodes the attribute section `buf[start..end]`.
    #[verifier::rlimit(30)]
    pub fn decode(buf: &[u8], start: usize, end: usize, four: bool) -> (r: Result<AttrSet, DecodeError>)
        requires
            start <= end <= buf@.len(),
        ensures
            match (r, decode_attrs(buf@.subrange(start as int, end as int), four)) {
                (Ok(a), Ok(v)) => a@ == v,
                (Err(e), Err(f)) => e == f,
                _ => false,
            },
    {
        let mut set = AttrSet::new();
        let mut pos = start;
        while pos < end
            invariant
                start <= pos <= end <= buf@.len(),
                decode_attrs(buf@.subrange(start as int, end as int), four) == decode_attr_list(
                    buf@.subrange(pos as int, end as int),
                    four,
                    set@,
                ),
            decreases end - pos,
        {
            let ghost s = buf@.subrange(pos as int, end as int);
            if end - pos < 3 {
                return Err(DecodeError::MalformedAttributeList);
            }
            let flags = buf[pos];
            let code = buf[pos + 1];
            let ext = flags & 0x10 != 0;
            let h: usize = if ext { 4 } else { 3 };
            if end - pos < h {
                return Err(DecodeError::MalformedAttributeList);
            }
            let n: usize = if ext { read_u16(buf, pos + 2) as usize } else { buf[pos + 2] as usize };
            assert(h == header_len(s) && n == body_len(s));
            if end - pos - h < n {
                return Err(DecodeError::MalformedAttributeList);
            }
            assert(s.subrange(h as int, (h + n) as int) =~= buf@.subrange(pos + h, pos + h + n));
            assert(s.subrange((h + n) as int, s.len() as int) =~= buf@.subrange(pos + h + n, end as int));
            set.apply(buf, flags, code, pos + h, pos + h + n, four)?;
            pos = pos + h + n;
        }
        assert(buf@.subrange(pos as int, end as int).len() == 0);
        Ok(set)
    }
}

/// The attributes that every route carries, and the optional ones of the base set.
/// `nexthop` holds a NEXT_HOP that came without IPv4 NLRI to go with it;
/// `ll_nexthop` has no attribute of its own (a link-local next hop travels in
/// MP_REACH_NLRI), so it is never decoded nor sent.
#[derive(Clone, Debug, PartialEq, Eq)]
pub struct BaseAttrs {
    pub origin: Origin,
    pub as_path: AsPath,
    pub as4_path: Option<AsPath>,
    pub nexthop: Option<[u8; 4]>,
    pub ll_nexthop: Option<[u8; 16]>,
    pub med: Option<u32>,
    pub local_pref: Option<u32>,
    pub aggregator: Option<Aggregator>,
    pub as4_aggregator: Option<Aggregator>,
    pub atomic_aggregate: bool,
    pub originator_id: Option<[u8; 4]>,
    pub cluster_list: Option<ClusterList>,
}

/// All path attributes of an UPDATE other than the NLRI ones.
#[derive(Clone, Debug, PartialEq, Eq)]
pub struct Attrs {
    pub base: BaseAttrs,
    pub comm: Option<CommList<Comm>>,
    pub ext_comm: Option<CommList<ExtComm>>,
    pub extv6_comm: Option<CommList<Extv6Comm>>,
    pub large_comm: Option<CommList<LargeComm>>,
    pub unknown: Vec<UnknownAttr>,
}

/// The attribute set that an UPDATE's attributes and NLRI attributes make up:
/// `nexthop` is the NEXT_HOP attribute.
pub open spec fn set_of(
    a: Attrs,
    nexthop: Option<[u8; 4]>,
    mp_reach: Option<MpReachNlri>,
    mp_unreach: Option<MpUnreachNlri>,
) -> AttrSetV {
    AttrSetV {
        origin: Some(a.base.origin),
        as_path: Some(a.base.as_path@),
        nexthop: opt_view(nexthop),
        med: a.base.med,
        local_pref: a.base.local_pref,
        atomic_aggregate: a.base.atomic_aggregate,
        aggregator: opt_view(a.base.aggregator),
        comm: opt_view(a.comm),
        originator_id: opt_view(a.base.originator_id),
        cluster_list: opt_view(a.base.cluster_list),
        mp_reach: opt_view(mp_reach),
        mp_unreach: opt_view(mp_unreach),
        ext_comm: opt_view(a.ext_comm),
        as4_path: opt_view(a.base.as4_path),
        as4_aggregator: opt_view(a.base.as4_aggregator),
        extv6_comm: opt_view(a.extv6_comm),
        large_comm: opt_view(a.large_comm),
        unknown: a.unknown@.map_values(|u: UnknownAttr| u@),
    }
}

/// The wire form of one attribute record; the length takes two bytes when
/// the flags say so.
pub open spec fn attr_record(flags: u8, code: u8, body: Seq<u8>) -> Seq<u8> {
    if flags & 0x10 != 0 {
        seq![flags, code] + u16_bytes((body.len() % 65536) as u16) + body
    } else {
        seq![flags, code, (body.len() % 256) as u8] + body
    }
}

/// The record of an optional attribute, or nothing.
pub open spec fn opt_record(flags: u8, code: u8, body: Option<Seq<u8>>) -> Seq<u8> {
    match body {
        Some(b) => attr_record(flags, code, b),
        None => Seq::empty(),
    }
}

/// Flags of an unrecognized attribute as sent: the extended-length bit is set
/// when the body needs it.
pub open spec fn sent_flags(flags: u8, body: Seq<u8>) -> u8 {
    if body.len() > 255 {
        flags | 0x10
    } else {
        flags
    }
}

/// The wire form of an unrecognized attribute.
pub open spec fn unknown_record(u: RawV) -> Seq<u8> {
    attr_record(sent_flags(u.0, u.2), u.1, u.2)
}

/// The wire code of an ORIGIN value.
pub open spec fn origin_code(o: Origin) -> u8 {
    match o {
        Origin::Igp => 0,
        Origin::Egp => 1,
        Origin::Incomplete => 2,
    }
}

/// The wire body of an aggregator.
pub open spec fn aggregator_bytes(a: (u32, Seq<u8>), four: bool) -> Seq<u8> {
    asn_bytes(a.0, four) + a.1
}

/// Applies `f` to an optional value.
pub open spec fn omap<A, B>(o: Option<A>, f: spec_fn(A) -> B) -> Option<B> {
    match o {
        Some(x) => Some(f(x)),
        None => None,
    }
}

/// The records of an attribute set, in the order they are sent: the
/// multiprotocol attributes first, then the others by type code, then the
/// unrecognized ones in the order they came.
pub open spec fn set_pieces(st: AttrSetV, four: bool) -> Seq<Seq<u8>> {
    seq![
        opt_record(0x90, 14, omap(st.mp_reach, |m: MpReachV| mp_reach_bytes(m))),
        opt_record(0x90, 15, omap(st.mp_unreach, |m: MpUnreachV| mp_unreach_bytes(m))),
        opt_record(0x40, 1, omap(st.origin, |o: Origin| seq![origin_code(o)])),
        opt_record(0x50, 2, omap(st.as_path, |p: Seq<SegV>| as_path_bytes(p, four))),
        opt_record(0x40, 3, st.nexthop),
        opt_record(0x80, 4, omap(st.med, |x: u32| u32_bytes(x))),
        opt_record(0x40, 5, omap(st.local_pref, |x: u32| u32_bytes(x))),
        opt_record(0x40, 6, if st.atomic_aggregate { Some(Seq::<u8>::empty()) } else { None }),
        opt_record(0xc0, 7, omap(st.aggregator, |a: (u32, Seq<u8>)| aggregator_bytes(a, four))),
        opt_record(0xd0, 8, omap(st.comm, |r: Seq<Seq<u8>>| r.flatten())),
        opt_record(0x80, 9, st.originator_id),
        opt_record(0x90, 10, omap(st.cluster_list, |r: Seq<Seq<u8>>| r.flatten())),
        opt_record(0xd0, 16, omap(st.ext_comm, |r: Seq<Seq<u8>>| r.flatten())),
        opt_record(0xd0, 17, omap(st.as4_path, |p: Seq<SegV>| as_path_bytes(p, true))),
        opt_record(0xc0, 18, omap(st.as4_aggregator, |a: (u32, Seq<u8>)| aggregator_bytes(a, true))),
        opt_record(0xd0, 25, omap(st.extv6_comm, |r: Seq<Seq<u8>>| r.flatten())),
        opt_record(0xd0, 32, omap(st.large_comm, |r: Seq<Seq<u8>>| r.flatten())),
        st.unknown.map_values(|u: RawV| unknown_record(u)).flatten(),
    ]
}

/// The wire form of an attribute set.
#[verifier::opaque]
pub open spec fn set_bytes(st: AttrSetV, four: bool) -> Seq<u8> {
    set_pieces(st, four).flatten()
}

/// Appending the next piece extends the flattened prefix.
proof fn lemma_flatten_take(out: Seq<u8>, start: Seq<u8>, ps: Seq<Seq<u8>>, k: int)
    requires
        0 <= k < ps.len(),
        out == start + ps.take(k).flatten() + ps[k],
    ensures
        out == start + ps.take(k + 1).flatten(),
{
    assert(ps.take(k + 1) =~= ps.take(k).push(ps[k]));
    ps.take(k).lemma_flatten_push(ps[k]);
    assert(out =~= start + ps.take(k + 1).flatten());
}

/// Appends one attribute record.
pub fn write_record(out: &mut Vec<u8>, flags: u8, code: u8, body: &Vec<u8>)
    ensures
        final(out)@ == old(out)@ + attr_record(flags, code, body@),
{
    out.push(flags);
    out.push(code);
    if flags & 0x10 != 0 {
        put_u16(out, (body.len() % 65536) as u16);
    } else {
        out.push((body.len() % 256) as u8);
    }
    put_bytes(out, body.as_slice());
    assert(final(out)@ =~= old(out)@ + attr_record(flags, code, body@));
}

/// Appends the record of a 32-bit valued attribute, if present.
fn write_u32_attr(out: &mut Vec<u8>, flags: u8, code: u8, v: Option<u32>)
    ensures
        final(out)@ == old(out)@ + opt_record(flags, code, omap(v, |x: u32| u32_bytes(x))),
{
    if let Some(x) = v {
        let mut b: Vec<u8> = Vec::new();
        put_u32(&mut b, x);
        assert(b@ =~= u32_bytes(x));
        write_record(out, flags, code, &b);
    }
}

/// Appends the record of an address-valued attribute, if present.
fn write_addr_attr(out: &mut Vec<u8>, flags: u8, code: u8, v: Option<[u8; 4]>)
    ensures
        final(out)@ == old(out)@ + opt_record(flags, code, opt_view(v)),
{
    if let Some(a) = v {
        let mut b: Vec<u8> = Vec::new();
        put_bytes(&mut b, &a);
        assert(b@ =~= a@);
        write_record(out, flags, code, &b);
    }
}

/// Appends the record of an aggregator attribute, if present.
fn write_aggregator_attr(out: &mut Vec<u8>, code: u8, v: Option<Aggregator>, four: bool)
    requires
        !four ==> (v matches Some(a) ==> a.asn <= 0xffff),
    ensures
        final(out)@ == old(out)@ + opt_record(0xc0, code, omap(opt_view(v), |a: (u32, Seq<u8>)| aggregator_bytes(a, four))),
{
    if let Some(a) = v {
        let mut b: Vec<u8> = Vec::new();
        if four {
            put_u32(&mut b, a.asn);
        } else {
            put_u16(&mut b, a.asn as u16);
        }
        put_bytes(&mut b, &a.identifier);
        assert(b@ =~= aggregator_bytes(a@, four));
        write_record(out, 0xc0, code, &b);
    }
}

/// Appends the record of a community-like list, if present.
fn write_list_attr<T: Community>(out: &mut Vec<u8>, flags: u8, code: u8, v: &Option<CommList<T>>)
    ensures
        final(out)@ == old(out)@ + opt_record(flags, code, omap(opt_view(*v), |r: Seq<Seq<u8>>| r.flatten())),
{
    if let Some(l) = v {
        let mut b: Vec<u8> = Vec::new();
        l.encode(&mut b);
        assert(b@ =~= l@.flatten());
        write_record(out, flags, code, &b);
    }
}

/// Appends the record of an AS path attribute, if present.
fn write_path_attr(out: &mut Vec<u8>, flags: u8, code: u8, v: &Option<AsPath>, four: bool)
    requires
        v matches Some(p) ==> as_path_check(p@, four) is Ok,
    ensures
        final(out)@ == old(out)@ + opt_record(flags, code, omap(opt_view(*v), |p: Seq<SegV>| as_path_bytes(p, four))),
{
    if let Some(p) = v {
        let mut b: Vec<u8> = Vec::new();
        p.encode(&mut b, four);
        assert(b@ =~= as_path_bytes(p@, four));
        write_record(out, flags, code, &b);
    }
}

impl Attrs {
    /// The attributes can be written with AS numbers of the given width, and
    /// every prefix holds the bytes its length needs.
    pub open spec fn encodable(&self, four: bool) -> bool {
        &&& as_path_check(self.base.as_path@, four) is Ok
        &&& (self.base.as4_path matches Some(p) ==> as_path_check(p@, true) is Ok)
        &&& (!four ==> (self.base.aggregator matches Some(a) ==> a.asn <= 0xffff))
    }

    /// Appends the attribute section made of these attributes, the NEXT_HOP
    /// `nexthop` and the multiprotocol NLRI.
    #[verifier::rlimit(40)]
    pub fn encode(
        &self,
        out: &mut Vec<u8>,
        nexthop: Option<[u8; 4]>,
        mp_reach: &Option<MpReachNlri>,
        mp_unreach: &Option<MpUnreachNlri>,
        four: bool,
    )
        requires
            self.encodable(four),
            mp_reach matches Some(m) ==> prefixes_sized(m.prefix_vec(), crate::nlri::family_width(m@.v6)),
            mp_unreach matches Some(m) ==> prefixes_sized(m.prefix_vec(), crate::nlri::family_width(m@.v6)),
        ensures
            final(out)@ == old(out)@ + set_bytes(set_of(*self, nexthop, *mp_reach, *mp_unreach), four),
    {
        reveal(set_bytes);
        let ghost start = out@;
        let ghost ps = set_pieces(set_of(*self, nexthop, *mp_reach, *mp_unreach), four);
        assert(ps.take(0) =~= Seq::<Seq<u8>>::empty());
        assert(out@ =~= start + ps.take(0).flatten());
        if let Some(m) = mp_reach {
            let mut b: Vec<u8> = Vec::new();
            m.encode(&mut b);
            assert(b@ =~= mp_reach_bytes(m@));
            write_record(out, 0x90, 14, &b);
        }
        proof { lemma_flatten_take(out@, start, ps, 0); }
        if let Some(m) = mp_unreach {
            let mut b: Vec<u8> = Vec::new();
            m.encode(&mut b);
            assert(b@ =~= mp_unreach_bytes(m@));
            write_record(out, 0x90, 15, &b);
        }
        proof { lemma_flatten_take(out@, start, ps, 1); }
        let mut b: Vec<u8> = Vec::new();
        b.push(match self.base.origin {
            Origin::Igp => 0u8,
            Origin::Egp => 1u8,
            Origin::Incomplete => 2u8,
        });
        assert(b@ =~= seq![origin_code(self.base.origin)]);
        write_record(out, 0x40, 1, &b);
        proof { lemma_flatten_take(out@, start, ps, 2); }
        let mut b: Vec<u8> = Vec::new();
        self.base.as_path.encode(&mut b, four);
        write_record(out, 0x50, 2, &b);
        proof { lemma_flatten_take(out@, start, ps, 3); }
        write_addr_attr(out, 0x40, 3, nexthop);
        proof { lemma_flatten_take(out@, start, ps, 4); }
        write_u32_attr(out, 0x80, 4, self.base.med);
        proof { lemma_flatten_take(out@, start, ps, 5); }
        write_u32_attr(out, 0x40, 5, self.base.local_pref);
        proof { lemma_flatten_take(out@, start, ps, 6); }
        if self.base.atomic_aggregate {
            let b: Vec<u8> = Vec::new();
            write_record(out, 0x40, 6, &b);
        }
        proof { lemma_flatten_take(out@, start, ps, 7); }
        write_aggregator_attr(out, 7, self.base.aggregator, four);
        proof { lemma_flatten_take(out@, start, ps, 8); }
        write_list_attr(out, 0xd0, 8, &self.comm);
        proof { lemma_flatten_take(out@, start, ps, 9); }
        write_addr_attr(out, 0x80, 9, self.base.originator_id);
        proof { lemma_flatten_take(out@, start, ps, 10); }
        if let Some(c) = &self.base.cluster_list {
            let mut b: Vec<u8> = Vec::new();
            let mut i: usize = 0;
            while i < c.0.len()
                invariant
                    i <= c.0@.len(),
                    b@ == records(c.0@.subrange(0, i as int)).flatten(),
                decreases c.0@.len() - i,
            {
                c.0[i].write(&mut b);
                proof {
                    let a = records(c.0@.subrange(0, i as int));
                    assert(records(c.0@.subrange(0, i + 1)) =~= a.push(c.0@[i as int]@));
                    a.lemma_flatten_push(c.0@[i as int]@);
                }
                i = i + 1;
            }
            assert(c.0@.subrange(0, c.0@.len() as int) =~= c.0@);
            write_record(out, 0x90, 10, &b);
        }
        proof { lemma_flatten_take(out@, start, ps, 11); }
        write_list_attr(out, 0xd0, 16, &self.ext_comm);
        proof { lemma_flatten_take(out@, start, ps, 12); }
        write_path_attr(out, 0xd0, 17, &self.base.as4_path, true);
        proof { lemma_flatten_take(out@, start, ps, 13); }
        write_aggregator_attr(out, 18, self.base.as4_aggregator, true);
        proof { lemma_flatten_take(out@, start, ps, 14); }
        write_list_attr(out, 0xd0, 25, &self.extv6_comm);
        proof { lemma_flatten_take(out@, start, ps, 15); }
        write_list_attr(out, 0xd0, 32, &self.large_comm);
        proof { lemma_flatten_take(out@, start, ps, 16); }
        let mut i: usize = 0;
        while i < self.unknown.len()
            invariant
                i <= self.unknown@.len(),
                ps == set_pieces(set_of(*self, nexthop, *mp_reach, *mp_unreach), four),
                out@ == start + ps.take(17).flatten() + self.unknown@.subrange(0, i as int).map_values(|u: UnknownAttr| u@).map_values(
                    |u: RawV| unknown_record(u),
                ).flatten(),
            decreases self.unknown@.len() - i,
        {
            let u = &self.unknown[i];
            let flags = if u.value.len() > 255 { u.flags | 0x10 } else { u.flags };
            write_record(out, flags, u.attr_type, &u.value);
            proof {
                let f = |u: RawV| unknown_record(u);
                let g = |u: UnknownAttr| u@;
                let a = self.unknown@.subrange(0, i as int).map_values(g).map_values(f);
                assert(self.unknown@.subrange(0, i + 1).map_values(g).map_values(f) =~= a.push(unknown_record(u@)));
                a.lemma_flatten_push(unknown_record(u@));
            }
            i = i + 1;
        }
        assert(self.unknown@.subrange(0, self.unknown@.len() as int) =~= self.unknown@);
        proof { lemma_flatten_take(out@, start, ps, 17); }
        assert(ps.take(18) =~= ps);
    }
}

/// A recognized attribute whose optional and transitive flags differ from
/// those its type requires, or that sets the partial flag where its type
/// forbids it, is refused with a flags error naming the type, whatever its
/// body holds.
pub proof fn lemma_flags_rejected(s: Seq<u8>, four: bool, st: AttrSetV)
    requires
        s.len() >= 3,
        s.len() >= header_len(s) + body_len(s),
        expected_flags(s[1]) matches Some(f) && (s[0] & 0xc0 != f || (f != 0xc0 && s[0] & 0x20 != 0)),
    ensures
        decode_attr_list(s, four, st) == Err::<AttrSetV, DecodeError>(
            DecodeError::AttributeFlagsError(s[1]),
        ),
{
}

/// The set that holds one unrecognized attribute and nothing else.
pub open spec fn only_unknown(u: RawV) -> AttrSetV {
    AttrSetV { unknown: seq![u], ..empty_set() }
}

/// An attribute of an unrecognized type with the optional flag is kept as it
/// came, and sending it again gives back the very same bytes.
#[verifier::rlimit(80)]
pub proof fn lemma_unknown_transparent(flags: u8, code: u8, body: Seq<u8>, four: bool)
    requires
        expected_flags(code) is None,
        flags & 0x80 != 0,
        body.len() <= if flags & 0x10 != 0 { 65535nat } else { 255nat },
    ensures
        decode_attrs(attr_record(flags, code, body), four) == Ok::<AttrSetV, DecodeError>(
            only_unknown((flags, code, body)),
        ),
        set_bytes(only_unknown((flags, code, body)), four) == attr_record(flags, code, body),
{
    let s = attr_record(flags, code, body);
    let ext = flags & 0x10 != 0;
    if ext {
        crate::bytes::lemma_be16_bytes(body.len() as u16);
        assert(body_len(s) == body.len());
    }
    let h = header_len(s);
    assert(s.subrange(h as int, (h + body.len()) as int) =~= body);
    assert(s.subrange((h + body.len()) as int, s.len() as int) =~= Seq::<u8>::empty());
    assert(!is_present(empty_set(), code));
    let st = AttrSetV { unknown: empty_set().unknown.push((flags, code, body)), ..empty_set() };
    assert(st.unknown =~= seq![(flags, code, body)]);
    assert(decode_attr_list(Seq::<u8>::empty(), four, st) == Ok::<AttrSetV, DecodeError>(st));
    assert(sent_flags(flags, body) == flags) by {
        if body.len() > 255 {
            assert(flags & 0x10 != 0 ==> (flags | 0x10) == flags) by (bit_vector);
        }
    }
    reveal(set_bytes);
    let u = only_unknown((flags, code, body));
    let last = u.unknown.map_values(|x: RawV| unknown_record(x));
    assert(last =~= seq![s]);
    seq![s].lemma_flatten_one_element();
    let ps = set_pieces(u, four);
    reveal_with_fuel(Seq::flatten, 19);
    assert(ps.flatten() =~= s);
}

} // verus!
