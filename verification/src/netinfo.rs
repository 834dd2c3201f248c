//! What the kernel tells about a TCP connection.

use vstd::prelude::*;

verus! {

/// The fields of the kernel's record that are of interest.
#[derive(Debug, Clone, Copy, PartialEq, Eq, Structural)]
pub struct TcpInfo {
    pub snd_mss: u32,
    pub rtt: u32,
    pub rttvar: u32,
    pub snd_cwnd: u32,
    pub snd_ssthresh: u32,
    pub ca_state: u8,
    pub retransmits: u8,
    pub lost: u32,
    pub reordering: u32,
    pub total_retrans: u32,
    pub bytes_acked: u64,
    pub bytes_received: u64,
    pub segs_out: u32,
    pub segs_in: u32,
    pub min_rtt: u32,
    pub notsent_bytes: u32,
    pub delivery_rate: u64,
    pub busy_time: u64,
    pub rwnd_limited: u64,
    pub sndbuf_limited: u64,
    pub delivered: u32,
    pub bytes_sent: u64,
    pub bytes_retrans: u64,
}

/// Up to where the record reaches if it holds the retransmissions.
pub const BIS_TOTAL_RETRANS: usize = 104;

/// Up to where the record reaches if it holds the bytes and segments.
pub const BIS_SEGS: usize = 144;

/// Up to where the record reaches if it holds the smallest round-trip time.
pub const BIS_MIN_RTT: usize = 160;

/// Up to where the record reaches if it holds what limited the sender.
pub const BIS_LIMITED: usize = 192;

/// Up to where the record reaches if it holds the retransmitted bytes.
pub const BIS_BYTES_RETRANS: usize = 216;

/// A named number.
#[derive(Debug, Clone, Copy)]
pub struct Entry {
    pub name: &'static str,
    pub value: u64,
}

/// Names and values of entries.
pub open spec fn shown(entries: Seq<Entry>) -> Seq<(Seq<char>, u64)> {
    Seq::new(entries.len(), |i: int| (entries[i].name@, entries[i].value))
}

pub open spec fn base_entries(info: TcpInfo) -> Seq<(Seq<char>, u64)> {
    seq![
        ("snd_mss"@, info.snd_mss as u64),
        ("rtt_us"@, info.rtt as u64),
        ("rttvar_us"@, info.rttvar as u64),
        ("snd_cwnd"@, info.snd_cwnd as u64),
        ("snd_ssthresh"@, info.snd_ssthresh as u64),
        ("ca_state"@, info.ca_state as u64),
        ("retransmits"@, info.retransmits as u64),
        ("lost"@, info.lost as u64),
        ("reordering"@, info.reordering as u64),
    ]
}

pub open spec fn segment_entries(info: TcpInfo) -> Seq<(Seq<char>, u64)> {
    seq![
        ("bytes_acked"@, info.bytes_acked),
        ("bytes_received"@, info.bytes_received),
        ("segs_out"@, info.segs_out as u64),
        ("segs_in"@, info.segs_in as u64),
    ]
}

pub open spec fn limit_entries(info: TcpInfo) -> Seq<(Seq<char>, u64)> {
    seq![
        ("delivery_rate_bps"@, (info.delivery_rate * 8) as u64),
        ("busy_time_us"@, info.busy_time),
        ("rwnd_limited_us"@, info.rwnd_limited),
        ("sndbuf_limited_us"@, info.sndbuf_limited),
    ]
}

/// A part of a record that is there if the record reaches far enough.
pub open spec fn reached(len: usize, end: usize, part: Seq<(Seq<char>, u64)>) -> Seq<
    (Seq<char>, u64),
> {
    if len >= end {
        part
    } else {
        Seq::empty()
    }
}

/// The entries of a record of which the kernel has filled this many bytes: older kernels do not
/// know the later fields.
pub open spec fn record(info: TcpInfo, len: usize) -> Seq<(Seq<char>, u64)> {
    base_entries(info) + reached(
        len,
        BIS_TOTAL_RETRANS,
        seq![("total_retrans"@, info.total_retrans as u64)],
    ) + reached(len, BIS_SEGS, segment_entries(info)) + reached(
        len,
        BIS_MIN_RTT,
        seq![
            ("min_rtt_us"@, info.min_rtt as u64),
            ("notsent_bytes"@, info.notsent_bytes as u64),
        ],
    ) + reached(len, BIS_LIMITED, limit_entries(info)) + reached(
        len,
        BIS_BYTES_RETRANS,
        seq![
            ("delivered"@, info.delivered as u64),
            ("bytes_sent"@, info.bytes_sent),
            ("bytes_retrans"@, info.bytes_retrans),
        ],
    )
}

/// A record that reaches further holds all that a shorter one holds, in the same place, and more; the
/// number of entries tells how far it reaches.
pub proof fn law_longer_records_hold_more(info: TcpInfo, len: usize, more: usize)
    requires
        len <= more,
    ensures
        record(info, len).is_prefix_of(record(info, more)),
        record(info, len).len() == if len < 104 {
            9int
        } else if len < 144 {
            10
        } else if len < 160 {
            14
        } else if len < 192 {
            16
        } else if len < 216 {
            20
        } else {
            23
        },
{
    assert(record(info, len) =~= record(info, more).subrange(0, record(info, len).len() as int));
}

/// Each number of a full record stands under its own name.
pub proof fn law_numbers_have_their_names(info: TcpInfo)
    requires
        info.delivery_rate * 8 <= u64::MAX,
    ensures
        ({
            let r = record(info, 216);
            &&& r[0] == ("snd_mss"@, info.snd_mss as u64)
            &&& r[1] == ("rtt_us"@, info.rtt as u64)
            &&& r[2] == ("rttvar_us"@, info.rttvar as u64)
            &&& r[3] == ("snd_cwnd"@, info.snd_cwnd as u64)
            &&& r[4] == ("snd_ssthresh"@, info.snd_ssthresh as u64)
            &&& r[5] == ("ca_state"@, info.ca_state as u64)
            &&& r[6] == ("retransmits"@, info.retransmits as u64)
            &&& r[7] == ("lost"@, info.lost as u64)
            &&& r[8] == ("reordering"@, info.reordering as u64)
            &&& r[9] == ("total_retrans"@, info.total_retrans as u64)
            &&& r[10] == ("bytes_acked"@, info.bytes_acked)
            &&& r[11] == ("bytes_received"@, info.bytes_received)
            &&& r[12] == ("segs_out"@, info.segs_out as u64)
            &&& r[13] == ("segs_in"@, info.segs_in as u64)
            &&& r[14] == ("min_rtt_us"@, info.min_rtt as u64)
            &&& r[15] == ("notsent_bytes"@, info.notsent_bytes as u64)
            &&& r[16].0 == "delivery_rate_bps"@ && r[16].1 == 8 * info.delivery_rate
            &&& r[17] == ("busy_time_us"@, info.busy_time)
            &&& r[18] == ("rwnd_limited_us"@, info.rwnd_limited)
            &&& r[19] == ("sndbuf_limited_us"@, info.sndbuf_limited)
            &&& r[20] == ("delivered"@, info.delivered as u64)
            &&& r[21] == ("bytes_sent"@, info.bytes_sent)
            &&& r[22] == ("bytes_retrans"@, info.bytes_retrans)
        }),
{
}

fn put(entries: &mut Vec<Entry>, name: &'static str, value: u64)
    ensures
        shown(final(entries)@) == shown(old(entries)@).push((name@, value)),
{
    let ghost before = entries@;
    entries.push(Entry { name, value });
    assert(shown(entries@) =~= shown(before).push((name@, value)));
}

/// The entries of a record of which the kernel has filled this many bytes.
pub fn tcp_info(info: &TcpInfo, len: usize) -> (entries: Vec<Entry>)
    requires
        info.delivery_rate * 8 <= u64::MAX,
    ensures
        shown(entries@) == record(*info, len),
{
    let mut entries: Vec<Entry> = Vec::new();
    put(&mut entries, "snd_mss", info.snd_mss as u64);
    put(&mut entries, "rtt_us", info.rtt as u64);
    put(&mut entries, "rttvar_us", info.rttvar as u64);
    put(&mut entries, "snd_cwnd", info.snd_cwnd as u64);
    put(&mut entries, "snd_ssthresh", info.snd_ssthresh as u64);
    put(&mut entries, "ca_state", info.ca_state as u64);
    put(&mut entries, "retransmits", info.retransmits as u64);
    put(&mut entries, "lost", info.lost as u64);
    put(&mut entries, "reordering", info.reordering as u64);
    assert(shown(entries@) =~= base_entries(*info));
    if len >= BIS_TOTAL_RETRANS {
        put(&mut entries, "total_retrans", info.total_retrans as u64);
    }
    if len >= BIS_SEGS {
        put(&mut entries, "bytes_acked", info.bytes_acked);
        put(&mut entries, "bytes_received", info.bytes_received);
        put(&mut entries, "segs_out", info.segs_out as u64);
        put(&mut entries, "segs_in", info.segs_in as u64);
    }
    if len >= BIS_MIN_RTT {
        put(&mut entries, "min_rtt_us", info.min_rtt as u64);
        put(&mut entries, "notsent_bytes", info.notsent_bytes as u64);
    }
    if len >= BIS_LIMITED {
        put(&mut entries, "delivery_rate_bps", info.delivery_rate * 8);
        put(&mut entries, "busy_time_us", info.busy_time);
        put(&mut entries, "rwnd_limited_us", info.rwnd_limited);
        put(&mut entries, "sndbuf_limited_us", info.sndbuf_limited);
    }
    if len >= BIS_BYTES_RETRANS {
        put(&mut entries, "delivered", info.delivered as u64);
        put(&mut entries, "bytes_sent", info.bytes_sent);
        put(&mut entries, "bytes_retrans", info.bytes_retrans);
    }
    assert(shown(entries@) =~= record(*info, len));
    entries
}

} // verus!
