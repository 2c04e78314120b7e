use rsllm::mpegts::{
    t35_captions, PcrSlots, T35Captions,
    choose_filter, decode_cea_608, decode_cea_608_cc1_cc2, decode_cea_608_xds, decode_character,
    is_standard_ascii, is_xds, nal_type_selected, splice_time_offset_ms, FilterChoice,
    FilterRequestKind, PtsDumpElementaryStreamConsumer,
};
use rsllm::ts_payload::{nal_unit_ranges, ts_packet_accepted, ts_payload_start, DemuxBuffer};

#[test]
fn standard_ascii_range() {
    assert!(is_standard_ascii(0x20));
    assert!(is_standard_ascii(0x7f));
    assert!(!is_standard_ascii(0x1f));
    assert!(!is_standard_ascii(0x80));
}

#[test]
fn xds_pairs() {
    assert!(is_xds(0x01, 0x41));
    assert!(!is_xds(0x02, 0x41));
    assert!(!is_xds(0x01, 0x10));
}

#[test]
fn decode_character_ascii_pair() {
    assert_eq!(decode_character(0x48, 0x69), Some("Hi".to_string()));
    assert_eq!(decode_character(0x20, 0x7f), Some(" \u{7f}".to_string()));
}

#[test]
fn decode_character_control_codes() {
    assert_eq!(decode_character(0x14, 0x2c), Some("[Clear Caption]".to_string()));
    assert_eq!(decode_character(0x14, 0x20), Some("[Roll-Up Caption]".to_string()));
    assert_eq!(decode_character(0x14, 0x21), None);
    assert_eq!(decode_cea_608_cc1_cc2(0x41, 0x42), Some("AB".to_string()));
}

#[test]
fn decode_xds_pair_in_upper_hex() {
    assert_eq!(decode_cea_608_xds(0x01, 0x7f), Some("XDS: 01 7F".to_string()));
    assert_eq!(decode_cea_608_xds(0x01, 0x4a), Some("XDS: 01 4A".to_string()));
    assert_eq!(decode_cea_608_xds(0x48, 0x69), None);
}

#[test]
fn decode_cea_608_sorts_channels() {
    let data = [
        0x04, 0x48, 0x69, // CC1 text
        0x05, 0x14, 0x20, // CC2 control
        0x04, 0x01, 0x41, // XDS on CC1
        0x06, 0x41, 0x41, // unknown channel
        0x04, 0x00, 0x00, // nothing decodes
        0x05, 0x01, 0x41, // XDS on CC2 is dropped
        0x04, 0x41, // incomplete triple
    ];
    let (cc1, cc2, xds) = decode_cea_608(&data);
    assert_eq!(cc1, vec!["Hi".to_string()]);
    assert_eq!(cc2, vec!["[Roll-Up Caption]".to_string()]);
    assert_eq!(xds, vec!["XDS: 01 41".to_string()]);
}

#[test]
fn decode_cea_608_outputs_at_most_one_per_triple() {
    let data: Vec<u8> = (0..60u8).map(|i| if i % 3 == 0 { 4 + (i / 3) % 2 } else { 0x41 + i % 26 }).collect();
    let (cc1, cc2, xds) = decode_cea_608(&data);
    assert!(cc1.len() + cc2.len() + xds.len() <= data.len() / 3);
    assert_eq!(cc1.len() + cc2.len(), 20);
}

#[test]
fn decode_cea_608_splits_over_whole_groups() {
    let a: Vec<u8> = vec![0x04, 0x48, 0x69, 0x05, 0x14, 0x2c, 0x04, 0x01, 0x41];
    let b: Vec<u8> = vec![0x04, 0x14, 0x20, 0x05, 0x4f, 0x4b, 0x09, 0x41, 0x42, 0x04, 0x41];
    let whole: Vec<u8> = [a.clone(), b.clone()].concat();
    let (a1, a2, ax) = decode_cea_608(&a);
    let (b1, b2, bx) = decode_cea_608(&b);
    let (w1, w2, wx) = decode_cea_608(&whole);
    assert_eq!(w1, [a1.clone(), b1.clone()].concat());
    assert_eq!(w2, [a2.clone(), b2.clone()].concat());
    assert_eq!(wx, [ax.clone(), bx.clone()].concat());
    assert_eq!(w1, vec!["Hi".to_string(), "[Roll-Up Caption]".to_string()]);
    assert_eq!(w2, vec!["[Clear Caption]".to_string(), "OK".to_string()]);
    assert_eq!(wx, vec!["XDS: 01 41".to_string()]);
    assert!(a1.len() + a2.len() + ax.len() <= a.len() / 3);
}

#[test]
fn decode_cea_608_of_nothing() {
    let (cc1, cc2, xds) = decode_cea_608(&[]);
    assert!(cc1.is_empty() && cc2.is_empty() && xds.is_empty());
}

#[test]
fn splice_offset_forward() {
    assert_eq!(splice_time_offset_ms(900, 0), 10);
    assert_eq!(splice_time_offset_ms(90_000 * 5 + 45, 90_000), 4000);
}

#[test]
fn splice_offset_before_pcr_wraps() {
    assert_eq!(splice_time_offset_ms(0, 90), 102481911520608619);
}

#[test]
fn filter_for_unannounced_pids() {
    assert_eq!(choose_filter(FilterRequestKind::ByPid { pid: 0 }), FilterChoice::Pat);
    assert_eq!(choose_filter(FilterRequestKind::ByPid { pid: 0x1fff }), FilterChoice::Null);
    assert_eq!(choose_filter(FilterRequestKind::ByPid { pid: 0x100 }), FilterChoice::Null);
}

#[test]
fn filter_for_announced_streams() {
    let stream = |stream_type: u8, elementary_pid: u16, scte35_registered: bool| FilterRequestKind::ByStream {
        program_pid: 0x20,
        stream_type,
        elementary_pid,
        scte35_registered,
    };
    assert_eq!(choose_filter(stream(0x1b, 0x100, false)), FilterChoice::Pes { elementary_pid: 0x100 });
    assert_eq!(
        choose_filter(stream(0x86, 0x101, true)),
        FilterChoice::Scte35 { program_pid: 0x20, elementary_pid: 0x101 }
    );
    assert_eq!(choose_filter(stream(0x86, 0x101, false)), FilterChoice::Null);
    assert_eq!(choose_filter(stream(0x0f, 0x102, true)), FilterChoice::Pcr { program_pid: 0x20 });
}

#[test]
fn filter_for_tables() {
    assert_eq!(
        choose_filter(FilterRequestKind::Pmt { pid: 0x30, program_number: 7 }),
        FilterChoice::Pmt { pid: 0x30, program_number: 7 }
    );
    assert_eq!(choose_filter(FilterRequestKind::Nit { pid: 0x10 }), FilterChoice::Null);
}

#[test]
fn pes_length_accumulates() {
    let mut c = PtsDumpElementaryStreamConsumer::construct(0x100);
    assert_eq!(c.pid, 0x100);
    assert_eq!(c.len, None);
    c.continue_packet(10);
    assert_eq!(c.len, None);
    c.begin_packet(Some(100));
    c.continue_packet(84);
    assert_eq!(c.len, Some(184));
    c.begin_packet(None);
    assert_eq!(c.len, Some(184));
    c.begin_packet(Some(7));
    assert_eq!(c.len, Some(7));
    assert_eq!(c.pid, 0x100);
}

#[test]
fn nal_types_selected_by_name_or_all() {
    assert!(nal_type_selected("sps,pps", "pps"));
    assert!(!nal_type_selected("sps,pps", "slice"));
    assert!(nal_type_selected("all", "sei"));
    assert!(!nal_type_selected("", "sei"));
}

#[test]
fn packets_accepted_by_size() {
    assert!(ts_packet_accepted(0, 188, 188));
    assert!(!ts_packet_accepted(0, 189, 188));
    assert!(!ts_packet_accepted(10, 14, 188));
    assert!(ts_packet_accepted(10, 15, 188));
}

fn packet_with_header(afc_bits: u8, adaptation_len: u8) -> Vec<u8> {
    let mut p = vec![0u8; 188];
    p[0] = 0x47;
    p[3] = afc_bits;
    p[4] = adaptation_len;
    p
}

#[test]
fn payload_start_by_adaptation_field() {
    assert_eq!(ts_payload_start(&packet_with_header(0x10, 0), 0, 188), Some(4));
    assert_eq!(ts_payload_start(&packet_with_header(0x30, 7), 0, 188), Some(12));
    assert_eq!(ts_payload_start(&packet_with_header(0x20, 7), 0, 188), None);
    assert_eq!(ts_payload_start(&packet_with_header(0x30, 200), 0, 188), None);
    assert_eq!(ts_payload_start(&packet_with_header(0x30, 180), 0, 188), None);
}

fn nal_packet() -> Vec<u8> {
    vec![
        0x47, 0x40, 0x00, 0x10, // header
        0x00, 0x00, 0x00, 0x01, 0x67, 0x42, 0x00, 0x1e, // long start code and SPS bytes
        0x00, 0x00, 0x01, 0x68, 0xce, 0x3c, 0x80, // short start code and PPS bytes
        0xff, 0xff, 0xff, 0xff, 0xff, // padding
    ]
}

#[test]
fn nal_ranges_with_short_codes() {
    let p = nal_packet();
    assert_eq!(nal_unit_ranges(&p, 4, p.len(), true), vec![(4, 12), (12, 18)]);
}

#[test]
fn nal_ranges_without_short_codes() {
    let p = nal_packet();
    assert_eq!(nal_unit_ranges(&p, 4, p.len(), false), vec![(4, 12)]);
}

#[test]
fn nal_ranges_are_ordered_and_start_with_codes() {
    let mut p = nal_packet();
    p.extend_from_slice(&[0, 0, 0, 1, 0x65, 0x88, 0x84, 0x00, 0x00, 0x01, 0x41, 0x9a, 0x02, 0x03, 0x04]);
    let r = nal_unit_ranges(&p, 4, p.len(), true);
    for w in r.windows(2) {
        assert!(w[0].1 <= w[1].0);
    }
    for &(s, e) in &r {
        assert!(s + 3 < e && e <= p.len());
        assert!(p[s..s + 3] == [0, 0, 1] || p[s..s + 4] == [0, 0, 0, 1]);
    }
}

#[test]
fn demux_buffer_collects_and_restarts() {
    let mut b = DemuxBuffer::new(8);
    assert!(b.contents().is_empty());
    b.push(&[1, 2, 3]);
    assert_eq!(b.contents(), &[1, 2, 3]);
    b.push(&[4, 5, 6, 7, 8]);
    assert_eq!(b.contents(), &[1, 2, 3, 4, 5, 6, 7, 8]);
    b.push(&[9]);
    assert_eq!(b.contents(), &[9]);
}

#[test]
fn t35_captions_of_united_states_data() {
    let payload: Vec<u8> = vec![0xb5, 0x04, 0x48, 0x69, 0x05, 0x14, 0x2c, 0x04, 0x01, 0x41, 0x00];
    match t35_captions(&payload) {
        T35Captions::Captions(cc1, cc2, xds) => {
            assert_eq!(cc1, vec!["Hi".to_string()]);
            assert_eq!(cc2, vec!["[Clear Caption]".to_string()]);
            assert_eq!(xds, vec!["XDS: 01 41".to_string()]);
        }
        other => panic!("expected captions, got {:?}", other),
    }
}

#[test]
fn t35_captions_of_other_countries() {
    assert!(matches!(t35_captions(&[0xb4, 0x04, 0x48, 0x69]), T35Captions::OtherCountry));
    assert!(matches!(t35_captions(&[0xff, 0xb5, 0x04, 0x48, 0x69]), T35Captions::OtherCountry));
    assert!(matches!(t35_captions(&[0x26]), T35Captions::OtherCountry));
}

#[test]
fn t35_captions_of_short_payloads() {
    assert!(matches!(t35_captions(&[]), T35Captions::Unreadable));
    assert!(matches!(t35_captions(&[0xff]), T35Captions::Unreadable));
    match t35_captions(&[0xb5]) {
        T35Captions::Captions(cc1, cc2, xds) => assert!(cc1.is_empty() && cc2.is_empty() && xds.is_empty()),
        other => panic!("expected no captions, got {:?}", other),
    }
}

#[test]
fn pcr_slots_follow_the_latest_registration() {
    let mut slots = PcrSlots::new();
    assert_eq!(slots.slot_of(0x100), None);
    assert_eq!(slots.register(0x100), 0);
    assert_eq!(slots.register(0x200), 1);
    assert_eq!(slots.slot_of(0x100), Some(0));
    assert_eq!(slots.slot_of(0x200), Some(1));
    assert_eq!(slots.register(0x100), 2);
    assert_eq!(slots.slot_of(0x100), Some(2));
    assert_eq!(slots.slot_of(0x200), Some(1));
    assert_eq!(slots.slot_of(0x300), None);
}
