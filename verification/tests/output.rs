use firepit::output::{prefixed_bytes, take_lines, Destination, OutputClient, OutputClientBehavior};

#[test]
fn passthrough_keeps_partial_stdout_across_writers() {
    let mut client = OutputClient::new(OutputClientBehavior::Passthrough);

    let sent = client.write(Destination::Stdout, b"Enter a value: ");
    assert!(sent.is_empty());

    let sent = client.write(Destination::Stdout, b"\n");
    assert_eq!(sent.len(), 1);
    assert_eq!(sent[0].buffer, b"Enter a value: \n".to_vec());
}

#[test]
fn passthrough_flushes_partial_stdout() {
    let mut client = OutputClient::new(OutputClientBehavior::Passthrough);

    assert!(client.write(Destination::Stdout, b"Enter a value: ").is_empty());
    let flushed = client.flush(Destination::Stdout).unwrap();

    assert_eq!(flushed.buffer, b"Enter a value: ".to_vec());
    assert!(client.flush(Destination::Stdout).is_none());
}

#[test]
fn grouped_output_comes_out_at_the_end() {
    let mut client = OutputClient::new(OutputClientBehavior::Grouped);
    assert!(client.write(Destination::Stdout, b"one\ntw").is_empty());
    assert!(client.write(Destination::Stderr, b"err\n").is_empty());
    assert!(client.write(Destination::Stdout, b"o\n").is_empty());
    assert_eq!(client.finish(), Some(b"one\nerr\ntwo\n".to_vec()));
}

#[test]
fn grouped_lines_reach_their_destinations_at_the_end() {
    let mut client = OutputClient::new(OutputClientBehavior::Grouped);
    client.write(Destination::Stdout, b"one\n");
    client.write(Destination::Stderr, b"err\n");
    client.write(Destination::Stdout, b"two\n");
    let lines = client.grouped_lines();
    assert_eq!(lines.len(), 3);
    assert_eq!(lines[0].buffer, b"one\n".to_vec());
    assert!(matches!(lines[0].destination, Destination::Stdout));
    assert_eq!(lines[1].buffer, b"err\n".to_vec());
    assert!(matches!(lines[1].destination, Destination::Stderr));
    assert_eq!(lines[2].buffer, b"two\n".to_vec());
    assert!(matches!(lines[2].destination, Destination::Stdout));
}

#[test]
fn in_memory_buffer_keeps_what_it_sent() {
    let mut client = OutputClient::new(OutputClientBehavior::InMemoryBuffer);
    let mut sent = client.write(Destination::Stdout, b"a\n");
    sent.extend(client.write(Destination::Stderr, b"b\nc\n"));
    let bytes: Vec<u8> = sent.iter().flat_map(|s| s.buffer.clone()).collect();
    assert!(client.grouped_lines().is_empty());
    assert_eq!(client.finish(), Some(bytes));
}

#[test]
fn in_memory_buffer_sends_and_keeps() {
    let mut client = OutputClient::new(OutputClientBehavior::InMemoryBuffer);
    let sent = client.write(Destination::Stderr, b"a\nb\nc");
    assert_eq!(sent.len(), 2);
    assert!(matches!(sent[1].destination, Destination::Stderr));
    assert_eq!(client.line_buffer(Destination::Stderr), &b"c".to_vec());
    assert_eq!(client.finish(), Some(b"a\nb\n".to_vec()));
}

#[test]
fn passthrough_keeps_nothing() {
    let client = OutputClient::new(OutputClientBehavior::Passthrough);
    assert_eq!(client.finish(), None);
}

#[test]
fn lines_are_cut_after_newlines() {
    let mut pending = b"ab".to_vec();
    let lines = take_lines(&mut pending, b"c\nd\n\ne");
    assert_eq!(lines, vec![b"abc\n".to_vec(), b"d\n".to_vec(), b"\n".to_vec()]);
    assert_eq!(pending, b"e".to_vec());
}

#[test]
fn prefix_goes_before_each_redrawn_chunk() {
    assert_eq!(prefixed_bytes(b"> ", b"hello\n"), b"> hello\n".to_vec());
    assert_eq!(prefixed_bytes(b"> ", b"50%\r100%\r\n"), b"> 50%\r> 100%\r\n".to_vec());
    assert_eq!(prefixed_bytes(b"> ", b"a\rb"), b"> a\r> b".to_vec());
    assert!(prefixed_bytes(b"> ", b"").is_empty());
}
