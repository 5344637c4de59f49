//! The packet classifier: parses an Ethernet frame and drops IPv4 traffic
//! whose source address the blacklist covers.
use vstd::prelude::*;
use crate::blacklist::{
    insert_outcome, lemma_host_prefix_exact, lemma_lpm_some_iff_covered, lpm, table_wf,
    Blacklist, PrefixKey,
};

verus! {

/// Verdict for a processing fault (a truncated header).
pub const XDP_ABORTED: u32 = 0;

/// Verdict for a packet to be dropped.
pub const XDP_DROP: u32 = 1;

/// Verdict for a packet to be passed on to the stack.
pub const XDP_PASS: u32 = 2;

/// Length of an Ethernet header.
pub const ETH_HDR_LEN: usize = 14;

/// Length of an IPv4 header without options.
pub const IPV4_HDR_LEN: usize = 20;

/// EtherType of IPv4.
pub const ETHER_TYPE_IPV4: u16 = 0x0800;

/// The EtherType of a frame: bytes 12 and 13, big-endian.
pub open spec fn ether_type(f: Seq<u8>) -> int {
    f[12] * 256 + f[13]
}

/// The IPv4 source address of a frame: bytes 26 to 29, big-endian.
pub open spec fn source_addr(f: Seq<u8>) -> int {
    ((f[26] * 256 + f[27]) * 256 + f[28]) * 256 + f[29]
}

/// What the classifier decides for frame `f` against blacklist `bl`:
/// `Err` for a truncated header, else the verdict.
pub open spec fn classify(bl: Seq<(PrefixKey, u32)>, f: Seq<u8>) -> Result<u32, ()> {
    if f.len() < ETH_HDR_LEN {
        Err(())
    } else if ether_type(f) != ETHER_TYPE_IPV4 {
        Ok(XDP_PASS)
    } else if f.len() < ETH_HDR_LEN + IPV4_HDR_LEN {
        Err(())
    } else if lpm(bl, source_addr(f) as u32) is Some {
        Ok(XDP_DROP)
    } else {
        Ok(XDP_PASS)
    }
}

/// Checks that `len` bytes from `offset` lie inside the frame, and returns
/// the offset where they do.
pub fn ptr_at(frame: &[u8], offset: usize, len: usize) -> (r: Result<usize, ()>)
    ensures
        r is Ok <==> offset + len <= frame@.len(),
        r is Ok ==> r == Ok::<usize, ()>(offset),
{
    if offset > frame.len() || len > frame.len() - offset {
        return Err(());
    }
    Ok(offset)
}

/// Classifies one frame; `Err` where a header is cut short.
pub fn try_ebpf_node(frame: &[u8], blacklist: &Blacklist) -> (r: Result<u32, ()>)
    requires
        blacklist.wf(),
    ensures
        r == classify(blacklist@, frame@),
{
    let eth = ptr_at(frame, 0, ETH_HDR_LEN)?;
    let ether_type: u16 = (frame[eth + 12] as u16) * 256 + frame[eth + 13] as u16;
    if ether_type != ETHER_TYPE_IPV4 {
        return Ok(XDP_PASS);
    }
    let ip = ptr_at(frame, ETH_HDR_LEN, IPV4_HDR_LEN)?;
    let source: u32 = (((frame[ip + 12] as u32) * 256 + frame[ip + 13] as u32) * 256
        + frame[ip + 14] as u32) * 256 + frame[ip + 15] as u32;
    // Longest prefix match of the full /32 source address.
    if blacklist.lookup(source).is_some() {
        return Ok(XDP_DROP);
    }
    Ok(XDP_PASS)
}

/// The verdict of a fault on the packet path: processing of the packet
/// stops and reports an abort, which is neither a pass nor a drop.
pub fn panic() -> (r: u32)
    ensures
        r == XDP_ABORTED,
{
    XDP_ABORTED
}

/// The classifier's verdict for one frame: drop where the blacklist covers
/// an IPv4 source, abort on a truncated header, pass otherwise.
pub fn ebpf_node(frame: &[u8], blacklist: &Blacklist) -> (r: u32)
    requires
        blacklist.wf(),
    ensures
        r == match classify(blacklist@, frame@) {
            Ok(v) => v,
            Err(_) => XDP_ABORTED,
        },
{
    match try_ebpf_node(frame, blacklist) {
        Ok(ret) => ret,
        Err(_) => panic(),
    }
}

/// A frame that is not IPv4 passes, whatever the blacklist holds.
pub proof fn lemma_non_ipv4_passes(bl: Seq<(PrefixKey, u32)>, f: Seq<u8>)
    requires
        f.len() >= ETH_HDR_LEN,
        ether_type(f) != ETHER_TYPE_IPV4,
    ensures
        classify(bl, f) == Ok::<u32, ()>(XDP_PASS),
{
}

/// An IPv4 frame from `a` passes an empty blacklist; once a /32 block for
/// `a` is inserted it is dropped, while a frame from any other address `b`
/// still passes.
pub proof fn lemma_block_single_host(cap: nat, value: u32, fa: Seq<u8>, fb: Seq<u8>)
    requires
        cap > 0,
        fa.len() >= ETH_HDR_LEN + IPV4_HDR_LEN,
        fb.len() >= ETH_HDR_LEN + IPV4_HDR_LEN,
        ether_type(fa) == ETHER_TYPE_IPV4,
        ether_type(fb) == ETHER_TYPE_IPV4,
        source_addr(fa) != source_addr(fb),
    ensures
        ({
            let empty = Seq::<(PrefixKey, u32)>::empty();
            let key = PrefixKey { prefix_len: 32, addr: source_addr(fa) as u32 };
            let (r, t) = insert_outcome(empty, cap, key, value);
            &&& classify(empty, fa) == Ok::<u32, ()>(XDP_PASS)
            &&& r is Ok
            &&& classify(t, fa) == Ok::<u32, ()>(XDP_DROP)
            &&& classify(t, fb) == Ok::<u32, ()>(XDP_PASS)
        }),
{
    let empty = Seq::<(PrefixKey, u32)>::empty();
    let a = source_addr(fa) as u32;
    let b = source_addr(fb) as u32;
    assert(0 <= source_addr(fa) < 0x1_0000_0000 && 0 <= source_addr(fb) < 0x1_0000_0000) by (nonlinear_arith)
        requires
            0 <= fa[26] < 256 && 0 <= fa[27] < 256 && 0 <= fa[28] < 256 && 0 <= fa[29] < 256,
            0 <= fb[26] < 256 && 0 <= fb[27] < 256 && 0 <= fb[28] < 256 && 0 <= fb[29] < 256,
            source_addr(fa) == ((fa[26] * 256 + fa[27]) * 256 + fa[28]) * 256 + fa[29],
            source_addr(fb) == ((fb[26] * 256 + fb[27]) * 256 + fb[28]) * 256 + fb[29],
    ;
    let key = PrefixKey { prefix_len: 32, addr: a };
    let t = empty.push((key, value));
    assert(insert_outcome(empty, cap, key, value) == (Ok::<(), crate::blacklist::BlacklistError>(()), t));
    lemma_lpm_some_iff_covered(empty, cap, a);
    assert(table_wf(t, 1));
    lemma_host_prefix_exact(a, a);
    lemma_host_prefix_exact(a, b);
    lemma_lpm_some_iff_covered(t, 1, a);
    lemma_lpm_some_iff_covered(t, 1, b);
    assert(t[0].0 == key);
}

} // verus!
