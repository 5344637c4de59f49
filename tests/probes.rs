use ebpf_node::probes::{
    latency_bucket, napi_consume_skb, netif_receive_skb, try_napi_consume_skb,
    try_netif_receive_skb, ProbeTables, HISTOGRAM_MAX_ENTRIES, SCRATCHPAD_MAX_ENTRIES,
};

#[test]
fn bucket_math() {
    assert_eq!(latency_bucket(0), 0);
    assert_eq!(latency_bucket(1), 1);
    assert_eq!(latency_bucket(2), 2);
    assert_eq!(latency_bucket(3), 2);
    assert_eq!(latency_bucket(1023), 10);
    assert_eq!(latency_bucket(1024), 11);
    assert_eq!(latency_bucket(u64::MAX), 64);
}

#[test]
fn probe_pair_counts_once_and_cleans_up() {
    let mut t = ProbeTables::new();
    assert_eq!(netif_receive_skb(&mut t, Some(0xffff_8880_1234_5600), 1_000), 0);
    assert_eq!(t.start_time(0xffff_8880_1234_5600), Some(1_000));
    assert_eq!(napi_consume_skb(&mut t, Some(0xffff_8880_1234_5600), 1_600), 0);
    assert_eq!(t.bucket_count(10), 1);
    assert_eq!(t.histogram_len(), 1);
    assert_eq!(t.scratchpad_len(), 0);
    assert_eq!(t.start_time(0xffff_8880_1234_5600), None);
    assert_eq!(t.histogram_report(), vec![(10, 1)]);
}

#[test]
fn exit_with_unknown_identity_is_noop() {
    let mut t = ProbeTables::new();
    assert_eq!(try_napi_consume_skb(&mut t, Some(42), 500), Ok(()));
    assert_eq!(t.histogram_len(), 0);
    assert_eq!(t.scratchpad_len(), 0);
    assert_eq!(try_napi_consume_skb(&mut t, None, 500), Err(()));
    assert_eq!(try_netif_receive_skb(&mut t, None, 500), Err(()));
}

#[test]
fn clock_skew_saturates_to_bucket_zero() {
    let mut t = ProbeTables::new();
    netif_receive_skb(&mut t, Some(7), 900);
    napi_consume_skb(&mut t, Some(7), 100);
    assert_eq!(t.bucket_count(0), 1);
    assert_eq!(t.histogram_report(), vec![(0, 1)]);
}

#[test]
fn counts_accumulate_and_report_in_order() {
    let mut t = ProbeTables::new();
    for (id, lat) in [(1u64, 3u64), (2, 2), (3, 1024), (4, 1)] {
        netif_receive_skb(&mut t, Some(id), 10);
        napi_consume_skb(&mut t, Some(id), 10 + lat);
    }
    assert_eq!(t.bucket_count(2), 2);
    assert_eq!(t.histogram_report(), vec![(1, 1), (2, 2), (11, 1)]);
}

#[test]
fn entry_probe_overwrites_same_identity() {
    let mut t = ProbeTables::new();
    netif_receive_skb(&mut t, Some(9), 10);
    netif_receive_skb(&mut t, Some(9), 20);
    assert_eq!(t.scratchpad_len(), 1);
    assert_eq!(t.start_time(9), Some(20));
}

#[test]
fn full_scratchpad_drops_measurement() {
    let mut t = ProbeTables::new();
    for id in 0..SCRATCHPAD_MAX_ENTRIES as u64 {
        assert_eq!(try_netif_receive_skb(&mut t, Some(id), 1), Ok(()));
    }
    assert_eq!(try_netif_receive_skb(&mut t, Some(1_000_000), 1), Err(()));
    assert_eq!(t.scratchpad_len(), SCRATCHPAD_MAX_ENTRIES);
    assert_eq!(t.start_time(1_000_000), None);
    assert_eq!(try_netif_receive_skb(&mut t, Some(5), 2), Ok(()));
}

#[test]
fn full_histogram_drops_measurement() {
    let mut t = ProbeTables::new();
    // Buckets 0 to 63 fill the histogram.
    for b in 0..HISTOGRAM_MAX_ENTRIES as u64 {
        let lat = if b == 0 { 0 } else { 1u64 << (b - 1) };
        netif_receive_skb(&mut t, Some(b), 0);
        assert_eq!(try_napi_consume_skb(&mut t, Some(b), lat), Ok(()));
    }
    assert_eq!(t.histogram_len(), HISTOGRAM_MAX_ENTRIES);
    // Bucket 64 has no room: the start time stays.
    netif_receive_skb(&mut t, Some(100), 0);
    assert_eq!(try_napi_consume_skb(&mut t, Some(100), u64::MAX), Err(()));
    assert_eq!(t.start_time(100), Some(0));
    assert_eq!(t.bucket_count(64), 0);
    assert_eq!(t.histogram_report().len(), 64);
}

#[test]
fn nonzero_buckets_keep_order() {
    let counts = vec![0u64, 4, 0, 0, 9, 0];
    assert_eq!(ebpf_node::probes::nonzero_buckets(&counts), vec![(1, 4), (4, 9)]);
    assert_eq!(ebpf_node::probes::nonzero_buckets(&vec![]), vec![]);
    assert_eq!(ebpf_node::probes::nonzero_buckets(&vec![0; 64]), vec![]);
}
