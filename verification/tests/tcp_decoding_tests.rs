use wordsling::tcp_server::{process_utf8_buffer, reader_step, ReadEvent};

#[test]
fn whole_buffer_of_valid_text_is_sent_at_once() {
    let mut buf = "привет".as_bytes().to_vec();
    assert_eq!(process_utf8_buffer(&mut buf), vec!["привет".to_string()]);
    assert!(buf.is_empty());
}

#[test]
fn character_split_across_reads_waits_for_its_bytes() {
    let bytes = "жук".as_bytes();
    let mut buf = bytes[..3].to_vec();
    assert_eq!(process_utf8_buffer(&mut buf), vec!["ж".to_string()]);
    assert_eq!(buf, vec![bytes[2]]);
    buf.extend_from_slice(&bytes[3..]);
    assert_eq!(process_utf8_buffer(&mut buf), vec!["ук".to_string()]);
    assert!(buf.is_empty());
}

#[test]
fn invalid_bytes_are_dropped() {
    let mut buf = vec![b'a', 0xFF, b'b'];
    assert_eq!(process_utf8_buffer(&mut buf), vec!["a".to_string(), "b".to_string()]);
    assert!(buf.is_empty());
}

#[test]
fn empty_buffer_yields_nothing() {
    let mut buf: Vec<u8> = Vec::new();
    assert!(process_utf8_buffer(&mut buf).is_empty());
}

#[test]
fn reader_new_connection_discards_leftover() {
    let mut leftover = vec![0xD0];
    let step = reader_step(&mut leftover, ReadEvent::NewConnection);
    assert!(leftover.is_empty());
    assert!(step.texts.is_empty());
    assert!(!step.drop_connection);
}

#[test]
fn reader_data_joins_leftover() {
    let mut leftover = vec![0xD0];
    let step = reader_step(&mut leftover, ReadEvent::Data(vec![0xB0, b'!']));
    assert_eq!(step.texts, vec!["а!".to_string()]);
    assert!(leftover.is_empty());
}

#[test]
fn reader_closed_or_failed_connection_is_dropped() {
    let mut leftover = vec![b'x'];
    assert!(reader_step(&mut leftover, ReadEvent::Closed).drop_connection);
    assert!(reader_step(&mut leftover, ReadEvent::Failed).drop_connection);
    assert!(!reader_step(&mut leftover, ReadEvent::TimedOut).drop_connection);
    assert_eq!(leftover, vec![b'x']);
}

#[test]
fn text_split_at_every_byte_comes_out_whole() {
    let text = "Жёлтый €uro 𝄞!";
    let bytes = text.as_bytes();
    for split in 0..=bytes.len() {
        let mut buf = bytes[..split].to_vec();
        let mut out = process_utf8_buffer(&mut buf);
        buf.extend_from_slice(&bytes[split..]);
        out.extend(process_utf8_buffer(&mut buf));
        assert!(buf.is_empty(), "left over at split {}", split);
        assert_eq!(out.concat(), text, "at split {}", split);
    }
}

#[test]
fn text_read_byte_by_byte_comes_out_whole_in_non_empty_pieces() {
    let text = "Жёлтый €uro 𝄞!";
    let mut buf: Vec<u8> = Vec::new();
    let mut out: Vec<String> = Vec::new();
    for b in text.as_bytes() {
        buf.push(*b);
        out.extend(process_utf8_buffer(&mut buf));
    }
    assert!(buf.is_empty());
    assert!(out.iter().all(|s| !s.is_empty()));
    assert_eq!(out.concat(), text);
    assert_eq!(out.len(), text.chars().count());
}

#[test]
fn text_read_in_three_uneven_packets_comes_out_whole() {
    let text = "𝄞 ёж €";
    let bytes = text.as_bytes();
    let mut buf: Vec<u8> = Vec::new();
    let mut out: Vec<String> = Vec::new();
    for packet in [&bytes[..1], &bytes[1..6], &bytes[6..]] {
        buf.extend_from_slice(packet);
        out.extend(process_utf8_buffer(&mut buf));
    }
    assert!(buf.is_empty());
    assert!(out.iter().all(|s| !s.is_empty()));
    assert_eq!(out.concat(), text);
}
