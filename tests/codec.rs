use sustenet::codec::{decode_frame, encode_frame, Answer, ClusterInfo, CodecError, Decoded, Frame};

fn answer() -> Answer {
    Answer {
        passphrase: b"ABCDEFGHIJKLMNOPQRST".to_vec(),
        name: "srv-main".to_string(),
        ip: "127.0.0.1".to_string(),
        port: 6257,
        max_connections: 100,
    }
}

#[test]
fn become_cluster_bytes() {
    let bytes = encode_frame(&Frame::BecomeCluster("cluster_key".to_string())).unwrap();
    let mut expected = vec![232u8, 11];
    expected.extend_from_slice(b"cluster_key");
    assert_eq!(bytes, expected);
}

#[test]
fn answer_cluster_bytes() {
    let bytes = encode_frame(&Frame::AnswerCluster(answer())).unwrap();
    let mut expected = vec![234u8, 20];
    expected.extend_from_slice(b"ABCDEFGHIJKLMNOPQRST");
    expected.push(8);
    expected.extend_from_slice(b"srv-main");
    expected.push(9);
    expected.extend_from_slice(b"127.0.0.1");
    expected.extend_from_slice(&[0x18, 0x71, 0x00, 0x00, 0x00, 0x64]);
    assert_eq!(bytes, expected);
}

#[test]
fn empty_cluster_list_bytes() {
    assert_eq!(encode_frame(&Frame::SendClusters(vec![])).unwrap(), vec![231, 0]);
    assert_eq!(encode_frame(&Frame::RequestClusters).unwrap(), vec![230]);
    assert_eq!(encode_frame(&Frame::CreateCluster).unwrap(), vec![235]);
}

#[test]
fn overlong_fields_are_refused() {
    let long = "x".repeat(256);
    assert_eq!(encode_frame(&Frame::BecomeCluster(long)), Err(CodecError::TooLong));
    assert_eq!(encode_frame(&Frame::VerifyCluster(vec![0; 256])), Err(CodecError::TooLong));
    assert_eq!(encode_frame(&Frame::Bare(7)), Err(CodecError::UnknownCommand));
    assert_eq!(encode_frame(&Frame::Bare(231)), Err(CodecError::UnknownCommand));
    assert_eq!(encode_frame(&Frame::Bare(250)).unwrap(), vec![250]);
    assert!(encode_frame(&Frame::BecomeCluster("y".repeat(255))).is_ok());
}

#[test]
fn frames_decode_in_order() {
    let frames = vec![
        Frame::RequestClusters,
        Frame::SendClusters(vec![ClusterInfo {
            name: "a".to_string(),
            ip: "10.0.0.1".to_string(),
            port: 7000,
            max_connections: 5,
        }]),
        Frame::BecomeCluster("cluster_key".to_string()),
        Frame::VerifyCluster(vec![1, 2, 3]),
        Frame::AnswerCluster(answer()),
        Frame::Bare(241),
        Frame::CreateCluster,
    ];
    let mut stream = Vec::new();
    for f in &frames {
        stream.extend(encode_frame(f).unwrap());
    }
    let mut pos = 0;
    let mut decoded = Vec::new();
    while let Decoded::Frame(f, next) = decode_frame(&stream, pos) {
        assert!(next > pos);
        decoded.push(f);
        pos = next;
    }
    assert_eq!(pos, stream.len());
    assert_eq!(decoded, frames);
}

#[test]
fn partial_and_unknown_input() {
    let bytes = encode_frame(&Frame::AnswerCluster(answer())).unwrap();
    for cut in 0..bytes.len() {
        assert_eq!(decode_frame(&bytes[..cut], 0), Decoded::Pending);
    }
    assert_eq!(decode_frame(&[7, 230], 0), Decoded::Unknown(7));
    assert_eq!(decode_frame(&[7, 230], 1), Decoded::Frame(Frame::RequestClusters, 2));
    assert_eq!(decode_frame(&[232, 2, 0xff, 0xfe], 0), Decoded::Pending);
}
