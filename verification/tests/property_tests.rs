use rplidar_protocol::packet::{
    calculate_checksum, Command, PacketBody, PacketError, PacketHeader, Request, START_FLAG,
};

fn sample_payload(len: usize) -> Vec<u8> {
    (0..len).map(|i| (i * 7 % 256) as u8).collect()
}

/// A valid ExpressScan packet: [0xA5, 0x82, 0x04, 0x48, 0x84, 0x60, 0x7f, 0xF0].
fn sample_packet() -> Vec<u8> {
    vec![0xA5, 0x82, 0x04, 0x48, 0x84, 0x60, 0x7f, 0xF0]
}

#[test]
fn command_byte_round_trip() {
    let commands = [
        Command::Stop,
        Command::Reset,
        Command::Scan,
        Command::ExpressScan,
        Command::ForceScan,
        Command::GetInfo,
        Command::GetHealth,
        Command::GetSampleRate,
        Command::GetLidarConf,
    ];
    for command in commands {
        assert_eq!(Command::parse(command.as_byte()), Some(command));
    }
    assert_eq!(Command::parse(0x00), None);
    assert_eq!(Command::parse(0xFF), None);
}

#[test]
fn command_bytes_match_catalog() {
    assert_eq!(Command::Stop.as_byte(), 0x25);
    assert_eq!(Command::Reset.as_byte(), 0x40);
    assert_eq!(Command::Scan.as_byte(), 0x20);
    assert_eq!(Command::ExpressScan.as_byte(), 0x82);
    assert_eq!(Command::ForceScan.as_byte(), 0x21);
    assert_eq!(Command::GetInfo.as_byte(), 0x50);
    assert_eq!(Command::GetHealth.as_byte(), 0x52);
    assert_eq!(Command::GetSampleRate.as_byte(), 0x59);
    assert_eq!(Command::GetLidarConf.as_byte(), 0x84);
}

#[test]
fn payload_partition() {
    assert!(Command::ExpressScan.has_payload());
    assert!(Command::GetLidarConf.has_payload());
    assert!(!Command::Stop.has_payload());
    assert!(!Command::Reset.has_payload());
    assert!(!Command::Scan.has_payload());
    assert!(!Command::ForceScan.has_payload());
    assert!(!Command::GetInfo.has_payload());
    assert!(!Command::GetHealth.has_payload());
    assert!(!Command::GetSampleRate.has_payload());
}

#[test]
fn round_trip_every_payload_length() {
    for command in [Command::ExpressScan, Command::GetLidarConf] {
        for len in 0..=255usize {
            let payload = sample_payload(len);
            let request = Request::with_payload(command, payload.clone()).unwrap();
            let bytes = request.to_bytes();
            assert_eq!(bytes.len(), 4 + len);
            let (parsed, rest) = Request::parse(&bytes).unwrap();
            assert_eq!(parsed, request);
            assert!(rest.is_empty());
            if let Request::Full(header, body) = parsed {
                assert_eq!(header, PacketHeader::new(START_FLAG, command));
                assert_eq!(body.payload, payload);
                assert_eq!(body.payload_size as usize, len);
            } else {
                panic!("expected a full request");
            }
        }
    }
}

#[test]
fn round_trip_header_only_commands() {
    let commands = [
        Command::Stop,
        Command::Reset,
        Command::Scan,
        Command::ForceScan,
        Command::GetInfo,
        Command::GetHealth,
        Command::GetSampleRate,
    ];
    for command in commands {
        let request = Request::only_command(command);
        let bytes = request.to_bytes();
        assert_eq!(bytes, vec![START_FLAG, command.as_byte()]);
        let (parsed, rest) = Request::parse(&bytes).unwrap();
        assert_eq!(parsed, request);
        assert!(rest.is_empty());
    }
}

#[test]
fn payload_too_large_rejected() {
    let payload = sample_payload(256);
    let result = Request::with_payload(Command::ExpressScan, payload);
    assert_eq!(result, Err(PacketError::PayloadTooLarge));
    let at_limit = Request::with_payload(Command::ExpressScan, sample_payload(255));
    assert!(at_limit.is_ok());
}

#[test]
fn checksum_deterministic_and_byte_sensitive() {
    let payload = vec![0x48, 0x84, 0x60, 0x7f];
    let base = calculate_checksum(START_FLAG, Command::ExpressScan, 4, &payload);
    let again = calculate_checksum(START_FLAG, Command::ExpressScan, 4, &payload);
    assert_eq!(base, again);

    assert_ne!(
        calculate_checksum(0xA4, Command::ExpressScan, 4, &payload),
        base
    );
    assert_ne!(
        calculate_checksum(START_FLAG, Command::GetLidarConf, 4, &payload),
        base
    );
    assert_ne!(
        calculate_checksum(START_FLAG, Command::ExpressScan, 5, &payload),
        base
    );
    for i in 0..payload.len() {
        let mut changed = payload.clone();
        changed[i] ^= 0x01;
        assert_ne!(
            calculate_checksum(START_FLAG, Command::ExpressScan, 4, &changed),
            base
        );
    }
}

#[test]
fn tamper_any_single_bit_detected() {
    let bytes = sample_packet();
    // Flip every bit of every payload byte and of the checksum byte.
    for position in 3..bytes.len() {
        for bit in 0..8 {
            let mut corrupted = bytes.clone();
            corrupted[position] ^= 1u8 << bit;
            match Request::parse(&corrupted) {
                Err(PacketError::InvalidChecksum {
                    provided,
                    calculated,
                }) => assert_ne!(provided, calculated),
                other => panic!("expected a checksum failure, got {:?}", other),
            }
        }
    }
}

#[test]
fn truncation_never_parses() {
    let bytes = sample_packet();
    for cut in 0..bytes.len() {
        let expected = match cut {
            0 => PacketError::MissingStartFlag,
            1 => PacketError::MissingCommand,
            2 => PacketError::MissingPayloadSize,
            7 => PacketError::MissingChecksum,
            _ => PacketError::IncompletePayload,
        };
        assert_eq!(Request::parse(&bytes[..cut]), Err(expected));
    }
}

#[test]
fn unknown_command_reported_with_byte() {
    assert_eq!(
        Request::parse(&[0xA5, 0xFF]),
        Err(PacketError::UnknownCommand { command: 0xFF })
    );
}

#[test]
fn missing_start_flag_on_empty_or_unmarked_input() {
    assert_eq!(Request::parse(&[]), Err(PacketError::MissingStartFlag));
    assert_eq!(Request::parse(&[0x00]), Err(PacketError::MissingStartFlag));
    assert_eq!(
        Request::parse(&[0x5A, 0x25]),
        Err(PacketError::MissingStartFlag)
    );
}

#[test]
fn missing_command_on_lone_start_flag() {
    assert_eq!(Request::parse(&[0xA5]), Err(PacketError::MissingCommand));
}

#[test]
fn missing_payload_size_on_bare_payload_command() {
    assert_eq!(
        Request::parse(&[0xA5, 0x82]),
        Err(PacketError::MissingPayloadSize)
    );
}

#[test]
fn incomplete_payload_when_bytes_run_out() {
    assert_eq!(
        Request::parse(&[0xA5, 0x82, 0x04, 0x48]),
        Err(PacketError::IncompletePayload)
    );
}

#[test]
fn missing_checksum_after_exact_payload() {
    assert_eq!(
        Request::parse(&[0xA5, 0x82, 0x01, 0x48]),
        Err(PacketError::MissingChecksum)
    );
}

#[test]
fn invalid_checksum_carries_both_values() {
    let mut bytes = sample_packet();
    let last = bytes.len() - 1;
    bytes[last] = 0xF1;
    assert_eq!(
        Request::parse(&bytes),
        Err(PacketError::InvalidChecksum {
            provided: 0xF1,
            calculated: 0xF0
        })
    );
}

#[test]
fn concrete_scenario_express_scan() {
    let checksum = calculate_checksum(
        START_FLAG,
        Command::ExpressScan,
        4,
        &[0x48, 0x84, 0x60, 0x7f],
    );
    assert_eq!(checksum, 0xF0);

    let packet = sample_packet();
    let (parsed, rest) = Request::parse(&packet).unwrap();
    assert_eq!(
        parsed,
        Request::Full(
            PacketHeader::new(0xA5, Command::ExpressScan),
            PacketBody::new(4, vec![0x48, 0x84, 0x60, 0x7f], 0xF0),
        )
    );
    assert!(rest.is_empty());
}

#[test]
fn multi_packet_buffer_leaves_residue() {
    let mut buffer = vec![START_FLAG, Command::Stop.as_byte()];
    let second = sample_packet();
    buffer.extend_from_slice(&second);

    let (first_parsed, rest) = Request::parse(&buffer).unwrap();
    assert_eq!(
        first_parsed,
        Request::OnlyHeader(PacketHeader::new(START_FLAG, Command::Stop))
    );
    assert_eq!(rest, &second[..]);

    let (second_parsed, rest_after) = Request::parse(rest).unwrap();
    assert_eq!(
        second_parsed,
        Request::Full(
            PacketHeader::new(START_FLAG, Command::ExpressScan),
            PacketBody::new(4, vec![0x48, 0x84, 0x60, 0x7f], 0xF0),
        )
    );
    assert!(rest_after.is_empty());
}

#[test]
fn serialize_full_request_matches_wire_format() {
    let request = Request::with_payload(Command::GetLidarConf, vec![0x01, 0x02]).unwrap();
    let checksum = calculate_checksum(START_FLAG, Command::GetLidarConf, 2, &[0x01, 0x02]);
    assert_eq!(
        request.to_bytes(),
        vec![0xA5, 0x84, 0x02, 0x01, 0x02, checksum]
    );
}
