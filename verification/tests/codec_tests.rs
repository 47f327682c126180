use zentry_db::{
    account_layout, compute_object_size, conversion_graph_layout, entry_layout,
    read_length_prefixed_string, system_layout, transaction_layout, Account, AccountType,
    BinaryField, BinaryLayout, ConversionGraph, Double, Entry, Error, FromBinary, Invalid,
    LengthType, System, ToBinary, Transaction, Uuid,
};

fn id(n: u128) -> Uuid {
    Uuid::from_u128(n)
}

fn id_bytes(n: u128) -> Vec<u8> {
    n.to_be_bytes().to_vec()
}

fn sample_account() -> Account {
    Account {
        id: id(0x0102_0304_0506_0708_090a_0b0c_0d0e_0f10),
        name: String::from("Cash"),
        account_type: AccountType::Equity,
        created_at: 1_700_000_000,
        system_id: String::from("IDR"),
    }
}

fn encode<T: ToBinary>(item: &T, layout: &BinaryLayout) -> Result<Vec<u8>, Error> {
    let mut out = Vec::new();
    item.to_binary(&mut out, layout)?;
    Ok(out)
}

#[test]
fn account_is_written_field_by_field_behind_the_liveness_byte() {
    let bytes = encode(&sample_account(), &account_layout()).unwrap();
    let mut expected = vec![1u8];
    expected.extend_from_slice(&id_bytes(0x0102_0304_0506_0708_090a_0b0c_0d0e_0f10));
    expected.push(4);
    expected.extend_from_slice(b"Cash");
    expected.push(2);
    expected.extend_from_slice(&1_700_000_000i64.to_le_bytes());
    expected.push(3);
    expected.extend_from_slice(b"IDR");
    assert_eq!(bytes, expected);
}

#[test]
fn account_reads_back() {
    let account = sample_account();
    let bytes = encode(&account, &account_layout()).unwrap();
    let (read, end) = Account::from_binary(&bytes, 1, &account_layout()).unwrap();
    assert_eq!(end, bytes.len());
    assert_eq!(read.id, account.id);
    assert_eq!(read.name, "Cash");
    assert_eq!(read.account_type, AccountType::Equity);
    assert_eq!(read.created_at, 1_700_000_000);
    assert_eq!(read.system_id, "IDR");
}

#[test]
fn account_with_a_negative_instant_reads_back() {
    let mut account = sample_account();
    account.created_at = -1;
    let bytes = encode(&account, &account_layout()).unwrap();
    assert_eq!(&bytes[23..31], &[0xff; 8]);
    let (read, _) = Account::from_binary(&bytes, 1, &account_layout()).unwrap();
    assert_eq!(read.created_at, -1);
    account.created_at = i64::MIN;
    let bytes = encode(&account, &account_layout()).unwrap();
    let (read, _) = Account::from_binary(&bytes, 1, &account_layout()).unwrap();
    assert_eq!(read.created_at, i64::MIN);
}

#[test]
fn appending_keeps_what_the_writer_held() {
    let mut out = vec![9u8, 8, 7];
    sample_account().to_binary(&mut out, &account_layout()).unwrap();
    assert_eq!(&out[..3], &[9, 8, 7]);
    assert_eq!(out[3], 1);
    let (read, end) = Account::from_binary(&out, 4, &account_layout()).unwrap();
    assert_eq!(end, out.len());
    assert_eq!(read.name, "Cash");
}

#[test]
fn a_name_of_255_bytes_fits_and_one_of_256_does_not() {
    let mut account = sample_account();
    account.name = "x".repeat(255);
    let bytes = encode(&account, &account_layout()).unwrap();
    assert_eq!(bytes[17], 255);
    account.name = "x".repeat(256);
    let mut out = vec![5u8];
    assert_eq!(
        account.to_binary(&mut out, &account_layout()),
        Err(Error::InvalidData(Invalid::TooLong))
    );
    assert_eq!(out, vec![5u8]);
}

#[test]
fn an_unknown_account_type_byte_is_invalid_data() {
    let mut bytes = encode(&sample_account(), &account_layout()).unwrap();
    bytes[22] = 9;
    assert_eq!(
        Account::from_binary(&bytes, 1, &account_layout()).err(),
        Some(Error::InvalidData(Invalid::UnknownAccountType))
    );
}

#[test]
fn a_record_cut_short_is_an_unexpected_end() {
    let bytes = encode(&sample_account(), &account_layout()).unwrap();
    for cut in 1..bytes.len() {
        assert_eq!(
            Account::from_binary(&bytes[..cut], 1, &account_layout()).err(),
            Some(Error::UnexpectedEof)
        );
        assert_eq!(
            Account::skip_bytes(&bytes[..cut], 1, &account_layout()),
            Err(Error::UnexpectedEof)
        );
    }
}

#[test]
fn a_field_the_record_does_not_have_is_invalid_data() {
    let layout = BinaryLayout {
        name: "Account",
        fields: vec![BinaryField::Uuid("id"), BinaryField::U32("balance")],
    };
    let mut out = Vec::new();
    assert_eq!(
        sample_account().to_binary(&mut out, &layout),
        Err(Error::InvalidData(Invalid::UnexpectedField))
    );
    assert!(out.is_empty());
    let data = vec![0u8; 64];
    assert_eq!(
        Account::from_binary(&data, 0, &layout).err(),
        Some(Error::InvalidData(Invalid::UnexpectedField))
    );
    let misnamed = BinaryLayout { name: "Account", fields: vec![BinaryField::Uuid("ident")] };
    assert_eq!(
        Account::from_binary(&data, 0, &misnamed).err(),
        Some(Error::InvalidData(Invalid::UnexpectedField))
    );
}

#[test]
fn the_layout_decides_the_order_of_the_fields() {
    let layout = BinaryLayout {
        name: "System",
        fields: vec![
            BinaryField::LengthPrefixed { length_type: LengthType::U16, name: "description" },
            BinaryField::LengthPrefixed { length_type: LengthType::U32, name: "system_id" },
        ],
    };
    let system = System { id: String::from("USD"), description: String::from("US dollar") };
    let bytes = encode(&system, &layout).unwrap();
    let mut expected = vec![1u8, 9, 0];
    expected.extend_from_slice(b"US dollar");
    expected.extend_from_slice(&[3, 0, 0, 0]);
    expected.extend_from_slice(b"USD");
    assert_eq!(bytes, expected);
    let (read, end) = System::from_binary(&bytes, 1, &layout).unwrap();
    assert_eq!(end, bytes.len());
    assert_eq!(read.id, "USD");
    assert_eq!(read.description, "US dollar");
}

#[test]
fn system_is_written_and_reads_back() {
    let system = System { id: String::from("IDR"), description: String::from("Rupiah") };
    let bytes = encode(&system, &system_layout()).unwrap();
    assert_eq!(bytes, b"\x01\x03IDR\x06Rupiah".to_vec());
    let (read, end) = System::from_binary(&bytes, 1, &system_layout()).unwrap();
    assert_eq!(end, 12);
    assert_eq!(read.id, "IDR");
    assert_eq!(read.description, "Rupiah");
}

#[test]
fn text_beyond_ascii_reads_back() {
    let system = System { id: String::from("€"), description: String::from("日本円 ¥") };
    let bytes = encode(&system, &system_layout()).unwrap();
    assert_eq!(bytes[1], 3);
    let (read, _) = System::from_binary(&bytes, 1, &system_layout()).unwrap();
    assert_eq!(read.id, "€");
    assert_eq!(read.description, "日本円 ¥");
}

#[test]
fn bytes_that_are_not_text_read_as_the_empty_string() {
    let bytes = vec![2u8, 0xff, 0xfe, 1, b'x'];
    let (read, end) = System::from_binary(&bytes, 0, &system_layout()).unwrap();
    assert_eq!(end, 5);
    assert_eq!(read.id, "");
    assert_eq!(read.description, "x");
    assert_eq!(
        read_length_prefixed_string(&bytes, 0, &LengthType::U8),
        Ok((String::new(), 3))
    );
}

#[test]
fn length_prefixed_strings_of_each_width() {
    assert_eq!(
        read_length_prefixed_string(b"\x02hi!", 0, &LengthType::U8),
        Ok((String::from("hi"), 3))
    );
    assert_eq!(
        read_length_prefixed_string(b"..\x02\x00hi!", 2, &LengthType::U16),
        Ok((String::from("hi"), 6))
    );
    assert_eq!(
        read_length_prefixed_string(b"\x02\x00\x00\x00hi", 0, &LengthType::U32),
        Ok((String::from("hi"), 6))
    );
    assert_eq!(
        read_length_prefixed_string(b"\x00", 0, &LengthType::U8),
        Ok((String::new(), 1))
    );
    assert_eq!(
        read_length_prefixed_string(b"\x03hi", 0, &LengthType::U8),
        Err(Error::UnexpectedEof)
    );
    assert_eq!(
        read_length_prefixed_string(b"\x03", 0, &LengthType::U16),
        Err(Error::UnexpectedEof)
    );
    assert_eq!(read_length_prefixed_string(b"", 0, &LengthType::U8), Err(Error::UnexpectedEof));
}

#[test]
fn entry_is_written_and_reads_back() {
    let entry = Entry {
        id: id(1),
        transaction_id: id(2),
        account_id: id(3),
        amount: Double::from_bits(100.5f64.to_bits()),
    };
    let bytes = encode(&entry, &entry_layout()).unwrap();
    let mut expected = vec![1u8];
    expected.extend_from_slice(&id_bytes(1));
    expected.extend_from_slice(&id_bytes(2));
    expected.extend_from_slice(&id_bytes(3));
    expected.extend_from_slice(&100.5f64.to_le_bytes());
    assert_eq!(bytes, expected);
    assert_eq!(bytes.len(), 57);
    let (read, end) = Entry::from_binary(&bytes, 1, &entry_layout()).unwrap();
    assert_eq!(end, 57);
    assert_eq!(read.id, id(1));
    assert_eq!(read.transaction_id, id(2));
    assert_eq!(read.account_id, id(3));
    assert_eq!(f64::from_bits(read.amount.to_bits()), 100.5);
}

#[test]
fn every_bit_pattern_of_an_amount_reads_back() {
    for amount in [0.0f64, -0.0, -90.0, f64::NAN, f64::INFINITY, f64::MIN_POSITIVE, 1e-320] {
        let entry = Entry {
            id: id(7),
            transaction_id: id(8),
            account_id: id(9),
            amount: Double::from_bits(amount.to_bits()),
        };
        let bytes = encode(&entry, &entry_layout()).unwrap();
        let (read, _) = Entry::from_binary(&bytes, 1, &entry_layout()).unwrap();
        assert_eq!(read.amount.to_bits(), amount.to_bits());
    }
}

#[test]
fn transaction_without_metadata_is_written_and_reads_back() {
    let tx = Transaction {
        id: id(0xabc),
        description: String::from("rent"),
        timestamp: 86_400,
        metadata: None,
    };
    let bytes = encode(&tx, &transaction_layout()).unwrap();
    let mut expected = vec![1u8];
    expected.extend_from_slice(&id_bytes(0xabc));
    expected.push(4);
    expected.extend_from_slice(b"rent");
    expected.extend_from_slice(&[0, 0, 0, 0]);
    expected.extend_from_slice(&86_400i64.to_le_bytes());
    assert_eq!(bytes, expected);
    let (read, end) = Transaction::from_binary(&bytes, 1, &transaction_layout()).unwrap();
    assert_eq!(end, bytes.len());
    assert_eq!(read.id, id(0xabc));
    assert_eq!(read.description, "rent");
    assert_eq!(read.timestamp, 86_400);
    assert_eq!(read.metadata, None);
}

#[test]
fn transaction_with_json_metadata_reads_back() {
    let json = serde_json::to_string(&serde_json::Value::from(vec![1, 2, 3])).unwrap();
    assert_eq!(json, "[1,2,3]");
    let tx = Transaction {
        id: id(5),
        description: String::new(),
        timestamp: 0,
        metadata: Some(json.clone()),
    };
    let bytes = encode(&tx, &transaction_layout()).unwrap();
    assert_eq!(&bytes[18..22], &[7, 0, 0, 0]);
    assert_eq!(&bytes[22..29], b"[1,2,3]");
    let (read, _) = Transaction::from_binary(&bytes, 1, &transaction_layout()).unwrap();
    assert_eq!(read.metadata, Some(json));
}

#[test]
fn metadata_that_is_not_json_reads_as_absent() {
    let tx = Transaction {
        id: id(5),
        description: String::from("d"),
        timestamp: 3,
        metadata: Some(String::from("{not json")),
    };
    let bytes = encode(&tx, &transaction_layout()).unwrap();
    let (read, end) = Transaction::from_binary(&bytes, 1, &transaction_layout()).unwrap();
    assert_eq!(end, bytes.len());
    assert_eq!(read.metadata, None);
    assert_eq!(read.timestamp, 3);
}

#[test]
fn metadata_of_no_length_reads_as_absent() {
    let tx = Transaction {
        id: id(5),
        description: String::from("d"),
        timestamp: 3,
        metadata: Some(String::new()),
    };
    let bytes = encode(&tx, &transaction_layout()).unwrap();
    let (read, _) = Transaction::from_binary(&bytes, 1, &transaction_layout()).unwrap();
    assert_eq!(read.metadata, None);
}

#[test]
fn active_graph_is_written_behind_the_marker_c() {
    let graph = ConversionGraph {
        graph: String::from("USD -> IDR"),
        rate: Double::from_bits(14000.0f64.to_bits()),
        rate_since: 1_000,
    };
    let bytes = encode(&graph, &conversion_graph_layout()).unwrap();
    let mut expected = vec![1u8, 11, b'C'];
    expected.extend_from_slice(b"USD -> IDR");
    expected.extend_from_slice(&14000.0f64.to_le_bytes());
    expected.extend_from_slice(&1_000i64.to_le_bytes());
    assert_eq!(bytes, expected);
    let (read, end) = ConversionGraph::from_binary(&bytes, 1, &conversion_graph_layout()).unwrap();
    assert_eq!(end, bytes.len());
    assert_eq!(read.graph, "USD -> IDR");
    assert_eq!(f64::from_bits(read.rate.to_bits()), 14000.0);
    assert_eq!(read.rate_since, 1_000);
}

#[test]
fn historical_graph_is_written_behind_the_marker_h_and_not_read_back() {
    let key = "2024-01-01T00:00:00+00:00[USD -> IDR]2024-06-01T00:00:00+00:00";
    let graph = ConversionGraph {
        graph: String::from(key),
        rate: Double::from_bits(14000.0f64.to_bits()),
        rate_since: 1_704_067_200,
    };
    let bytes = encode(&graph, &conversion_graph_layout()).unwrap();
    assert_eq!(bytes[1] as usize, key.len() + 1);
    assert_eq!(bytes[2], b'H');
    assert_eq!(&bytes[3..3 + key.len()], key.as_bytes());
    assert_eq!(
        ConversionGraph::from_binary(&bytes, 1, &conversion_graph_layout()).err(),
        Some(Error::HistoricalRecord)
    );
    assert_eq!(
        ConversionGraph::skip_bytes(&bytes, 1, &conversion_graph_layout()),
        Ok(bytes.len())
    );
}

#[test]
fn a_key_of_neither_class_cannot_be_written() {
    for key in ["", "USD", "USD => IDR", "US$ -> IDR", "USD -> IDR -> SGD"] {
        let graph = ConversionGraph {
            graph: String::from(key),
            rate: Double::from_bits(1.0f64.to_bits()),
            rate_since: 0,
        };
        let mut out = vec![3u8];
        assert_eq!(
            graph.to_binary(&mut out, &conversion_graph_layout()),
            Err(Error::InvalidData(Invalid::UnknownGraphKey))
        );
        assert_eq!(out, vec![3u8]);
    }
}

#[test]
fn a_marker_other_than_c_or_h_is_corrupt_data() {
    let graph = ConversionGraph {
        graph: String::from("USD -> IDR"),
        rate: Double::from_bits(2.0f64.to_bits()),
        rate_since: 0,
    };
    let mut bytes = encode(&graph, &conversion_graph_layout()).unwrap();
    bytes[2] = b'X';
    assert_eq!(
        ConversionGraph::from_binary(&bytes, 1, &conversion_graph_layout()).err(),
        Some(Error::CorruptData)
    );
    let empty_key = vec![0u8; 17];
    assert_eq!(
        ConversionGraph::from_binary(&empty_key, 0, &conversion_graph_layout()).err(),
        Some(Error::CorruptData)
    );
}

#[test]
fn skipping_steps_over_exactly_one_record() {
    let mut bytes = encode(&sample_account(), &account_layout()).unwrap();
    let first = bytes.len();
    sample_account().to_binary(&mut bytes, &account_layout()).unwrap();
    assert_eq!(Account::skip_bytes(&bytes, 1, &account_layout()), Ok(first));
    assert_eq!(Account::skip_bytes(&bytes, first + 1, &account_layout()), Ok(bytes.len()));
}

#[test]
fn object_size_adds_up_the_fields() {
    let bytes = encode(&sample_account(), &account_layout()).unwrap();
    assert_eq!(compute_object_size(&account_layout(), &bytes, 1), Ok(16 + 5 + 1 + 8 + 4));
    assert_eq!(compute_object_size(&entry_layout(), &[], 0), Ok(56));
    assert_eq!(compute_object_size(&entry_layout(), &[], 1000), Ok(56));
    let layout = BinaryLayout {
        name: "Mixed",
        fields: vec![
            BinaryField::U32("count"),
            BinaryField::LengthPrefixed { length_type: LengthType::U16, name: "body" },
            BinaryField::U8("flag"),
        ],
    };
    let data = [0u8, 0, 0, 0, 0x00, 0x01, 7];
    assert_eq!(compute_object_size(&layout, &data, 0), Ok(4 + 2 + 256 + 1));
}

#[test]
fn object_size_needs_every_length_prefix_inside_the_data() {
    let bytes = encode(&sample_account(), &account_layout()).unwrap();
    assert_eq!(
        compute_object_size(&account_layout(), &bytes[..17], 1),
        Err(Error::UnexpectedEof)
    );
    assert_eq!(
        compute_object_size(&account_layout(), &bytes[..bytes.len() - 4], 1),
        Err(Error::UnexpectedEof)
    );
    assert_eq!(
        compute_object_size(&account_layout(), &bytes[..bytes.len() - 3], 1),
        Ok(16 + 5 + 1 + 8 + 4)
    );
    assert_eq!(compute_object_size(&system_layout(), &bytes, bytes.len()), Err(Error::UnexpectedEof));
}

#[test]
fn an_object_that_would_end_beyond_any_address_is_too_large() {
    assert_eq!(
        compute_object_size(&entry_layout(), &[], usize::MAX - 3),
        Err(Error::InvalidData(Invalid::TooLarge))
    );
    assert_eq!(compute_object_size(&entry_layout(), &[], usize::MAX - 56), Ok(56));
}
