use ftr_parser::parser::{is_ftr, read_from_bytes, read_from_file_bytes};
use ftr_parser::types::{AttributeType, DataType, Timescale};
use ftr_parser::FtrError;

fn cb_uint(major: u8, v: u64) -> Vec<u8> {
    let h = major << 5;
    if v < 24 {
        vec![h | (v as u8)]
    } else if v < 0x100 {
        vec![h | 24, v as u8]
    } else if v < 0x10000 {
        let mut out = vec![h | 25];
        out.extend_from_slice(&(v as u16).to_be_bytes());
        out
    } else if v < 0x1_0000_0000 {
        let mut out = vec![h | 26];
        out.extend_from_slice(&(v as u32).to_be_bytes());
        out
    } else {
        let mut out = vec![h | 27];
        out.extend_from_slice(&v.to_be_bytes());
        out
    }
}

fn cb_int(v: u64) -> Vec<u8> {
    cb_uint(0, v)
}

fn cb_tag(t: u64) -> Vec<u8> {
    cb_uint(6, t)
}

fn cb_text(s: &str) -> Vec<u8> {
    let mut out = cb_uint(3, s.len() as u64);
    out.extend_from_slice(s.as_bytes());
    out
}

fn cb_bytes(b: &[u8]) -> Vec<u8> {
    let mut out = cb_uint(2, b.len() as u64);
    out.extend_from_slice(b);
    out
}

fn dict_chunk(entries: &[(u64, &str)]) -> Vec<u8> {
    let mut payload = cb_uint(5, entries.len() as u64);
    for (id, name) in entries {
        payload.extend(cb_int(*id));
        payload.extend(cb_text(name));
    }
    let mut out = cb_tag(8);
    out.extend(cb_bytes(&payload));
    out
}

fn stream_entry(id: u64, name_id: u64, kind_id: u64) -> Vec<u8> {
    let mut out = cb_tag(16);
    out.extend(cb_uint(4, 3));
    out.extend(cb_int(id));
    out.extend(cb_int(name_id));
    out.extend(cb_int(kind_id));
    out
}

fn gen_entry(id: u64, name_id: u64, stream_id: u64) -> Vec<u8> {
    let mut out = cb_tag(17);
    out.extend(cb_uint(4, 3));
    out.extend(cb_int(id));
    out.extend(cb_int(name_id));
    out.extend(cb_int(stream_id));
    out
}

fn dir_chunk(entries: &[Vec<u8>]) -> Vec<u8> {
    let mut payload = vec![0x9f];
    for e in entries {
        payload.extend_from_slice(e);
    }
    payload.push(0xff);
    let mut out = cb_tag(10);
    out.extend(cb_bytes(&payload));
    out
}

fn event_item(tx_id: u64, gen_id: u64, start: u64, end: u64) -> Vec<u8> {
    let mut out = cb_tag(6);
    out.extend(cb_uint(4, 4));
    out.extend(cb_int(tx_id));
    out.extend(cb_int(gen_id));
    out.extend(cb_int(start));
    out.extend(cb_int(end));
    out
}

fn attr_item(tag: u64, name_id: u64, code: u64, value: &[u8]) -> Vec<u8> {
    let mut out = cb_tag(tag);
    out.extend(cb_uint(4, 3));
    out.extend(cb_int(name_id));
    out.extend(cb_int(code));
    out.extend_from_slice(value);
    out
}

fn tx_payload(txs: &[Vec<u8>]) -> Vec<u8> {
    let mut payload = vec![0x9f];
    for t in txs {
        payload.extend_from_slice(t);
    }
    payload.push(0xff);
    payload
}

fn tx_block_chunk(stream_id: u64, start: u64, end: u64, payload: &[u8]) -> Vec<u8> {
    let mut out = cb_tag(12);
    out.extend(cb_uint(4, 4));
    out.extend(cb_int(stream_id));
    out.extend(cb_int(start));
    out.extend(cb_int(end));
    out.extend(cb_bytes(payload));
    out
}

fn rel3(type_id: u64, from: u64, to: u64) -> Vec<u8> {
    let mut out = cb_uint(4, 3);
    out.extend(cb_int(type_id));
    out.extend(cb_int(from));
    out.extend(cb_int(to));
    out
}

fn rel5(type_id: u64, from: u64, to: u64, fs: u64, ts: u64) -> Vec<u8> {
    let mut out = cb_uint(4, 5);
    out.extend(cb_int(type_id));
    out.extend(cb_int(from));
    out.extend(cb_int(to));
    out.extend(cb_int(fs));
    out.extend(cb_int(ts));
    out
}

fn rel_chunk(rels: &[Vec<u8>]) -> Vec<u8> {
    let mut payload = vec![0x9f];
    for r in rels {
        payload.extend_from_slice(r);
    }
    payload.push(0xff);
    let mut out = cb_tag(14);
    out.extend(cb_bytes(&payload));
    out
}

fn info_chunk(exponent_neg: u64) -> Vec<u8> {
    // a two-element array: negative exponent, then a tag-1 creation time
    let mut payload = cb_uint(4, 2);
    payload.extend(cb_uint(1, exponent_neg - 1));
    payload.extend(cb_tag(1));
    payload.extend(cb_int(100));
    let mut out = cb_tag(6);
    out.extend(cb_bytes(&payload));
    out
}

fn envelope(chunks: &[Vec<u8>]) -> Vec<u8> {
    let mut out = cb_tag(55799);
    out.push(0x9f);
    for c in chunks {
        out.extend_from_slice(c);
    }
    out.push(0xff);
    out
}

#[test]
fn end_to_end_minimal_file() {
    let file = envelope(&[
        dict_chunk(&[(0, "clk")]),
        dir_chunk(&[stream_entry(1, 0, 0)]),
    ]);
    let ftr = read_from_bytes(file).unwrap();
    let st = ftr.get_stream(1).unwrap();
    assert_eq!(st.name, "clk");
    assert_eq!(st.kind, "clk");
    assert!(st.generators.is_empty());
    assert_eq!(ftr.str_dict.get(&0), Some(&"clk".to_string()));
}

#[test]
fn info_chunk_sets_timescale() {
    let file = envelope(&[info_chunk(12)]);
    let ftr = read_from_bytes(file).unwrap();
    assert_eq!(ftr.time_scale, Timescale::Ns);
}

#[test]
fn unknown_dictionary_id_is_reference_error() {
    // the directory names dictionary id 5, which is absent
    let file = envelope(&[
        dict_chunk(&[(0, "clk")]),
        dir_chunk(&[stream_entry(1, 5, 0)]),
    ]);
    assert_eq!(read_from_bytes(file).err(), Some(FtrError::Reference));
}

#[test]
fn unknown_chunk_tag_is_format_error() {
    let mut bad = cb_tag(55799);
    bad.push(0x9f);
    bad.extend(cb_tag(99));
    bad.push(0xff);
    assert_eq!(read_from_bytes(bad).err(), Some(FtrError::Format));
}

#[test]
fn definite_top_array_is_format_error() {
    let mut bad = cb_tag(55799);
    bad.extend(cb_uint(4, 2));
    assert_eq!(read_from_bytes(bad).err(), Some(FtrError::Format));
}

#[test]
fn wrong_leading_tag_is_format_error() {
    let mut bad = cb_tag(1234);
    bad.push(0x9f);
    bad.push(0xff);
    assert_eq!(read_from_bytes(bad).err(), Some(FtrError::Format));
}

#[test]
fn missing_break_marker_is_truncated() {
    let mut bad = cb_tag(55799);
    bad.push(0x9f);
    assert_eq!(read_from_bytes(bad).err(), Some(FtrError::Truncated));
}

#[test]
fn trailing_bytes_after_break_are_ignored() {
    let mut file = envelope(&[dict_chunk(&[(0, "clk")])]);
    file.extend_from_slice(&[0xde, 0xad]);
    assert!(read_from_bytes(file).is_ok());
}

#[test]
fn compressed_dictionary_chunk() {
    let mut payload = cb_uint(5, 1);
    payload.extend(cb_int(0));
    payload.extend(cb_text("rst"));
    let compressed = lz4_flex::compress(&payload);
    let mut chunk = cb_tag(9);
    chunk.extend(cb_uint(4, 2));
    chunk.extend(cb_int(payload.len() as u64));
    chunk.extend(cb_bytes(&compressed));
    let file = envelope(&[chunk]);
    let ftr = read_from_bytes(file).unwrap();
    assert_eq!(ftr.str_dict.get(&0), Some(&"rst".to_string()));
}

#[test]
fn compressed_chunk_with_small_declared_size_is_decompress_error() {
    let mut payload = cb_uint(5, 1);
    payload.extend(cb_int(0));
    payload.extend(cb_text("a_fairly_long_dictionary_entry_name"));
    let compressed = lz4_flex::compress(&payload);
    let mut chunk = cb_tag(9);
    chunk.extend(cb_uint(4, 2));
    chunk.extend(cb_int((payload.len() - 1) as u64));
    chunk.extend(cb_bytes(&compressed));
    let file = envelope(&[chunk]);
    assert_eq!(read_from_bytes(file).err(), Some(FtrError::Decompress));
}

fn two_generator_file() -> Vec<u8> {
    // dictionary: 0 names, 5 the relation label
    let dict = dict_chunk(&[(0, "gen"), (1, "s1"), (2, "s2"), (5, "link")]);
    let dir = dir_chunk(&[
        stream_entry(10, 1, 1),
        stream_entry(20, 2, 2),
        gen_entry(1, 0, 10),
        gen_entry(2, 0, 20),
    ]);
    let b1 = tx_block_chunk(10, 0, 50, &tx_payload(&[{
        let mut t = cb_uint(4, 1);
        t.extend(event_item(1, 1, 0, 50));
        t
    }]));
    let b2 = tx_block_chunk(20, 0, 80, &tx_payload(&[{
        let mut t = cb_uint(4, 1);
        t.extend(event_item(2, 2, 10, 80));
        t
    }]));
    let rels = rel_chunk(&[rel3(5, 1, 2)]);
    envelope(&[dict, dir, b1, b2, rels])
}

#[test]
fn legacy_relation_resolves_stream_ids() {
    let ftr = read_from_bytes(two_generator_file()).unwrap();
    assert_eq!(ftr.tx_relations.len(), 1);
    let r = &ftr.tx_relations[0];
    assert_eq!(r.name, "link");
    assert_eq!(r.source_tx_id, 1);
    assert_eq!(r.sink_tx_id, 2);
    assert_eq!(r.source_stream_id, 10);
    assert_eq!(r.sink_stream_id, 20);
}

#[test]
fn legacy_relation_unknown_endpoint_defaults_to_zero() {
    let dict = dict_chunk(&[(0, "gen"), (5, "link")]);
    let dir = dir_chunk(&[stream_entry(10, 0, 0), gen_entry(1, 0, 10)]);
    let rels = rel_chunk(&[rel3(5, 7, 8)]);
    let file = envelope(&[dict, dir, rels]);
    let ftr = read_from_bytes(file).unwrap();
    assert_eq!(ftr.tx_relations[0].source_stream_id, 0);
    assert_eq!(ftr.tx_relations[0].sink_stream_id, 0);
}

#[test]
fn five_field_relation_keeps_explicit_streams() {
    let dict = dict_chunk(&[(5, "link")]);
    let rels = rel_chunk(&[rel5(5, 1, 2, 33, 44)]);
    let file = envelope(&[dict, rels]);
    let ftr = read_from_bytes(file).unwrap();
    assert_eq!(ftr.tx_relations[0].source_stream_id, 33);
    assert_eq!(ftr.tx_relations[0].sink_stream_id, 44);
}

#[test]
fn max_timestamp_tracks_block_end_times() {
    let ftr = read_from_bytes(two_generator_file()).unwrap();
    assert_eq!(ftr.max_timestamp, 80);
}

#[test]
fn transactions_decoded_eagerly_from_buffer() {
    let ftr = read_from_bytes(two_generator_file()).unwrap();
    let g1 = ftr.get_generator(1).unwrap();
    assert_eq!(g1.transactions.len(), 1);
    assert_eq!(g1.transactions[0].get_tx_id(), 1);
    assert_eq!(g1.transactions[0].get_start_time(), 0);
    assert_eq!(g1.transactions[0].get_end_time(), 50);
    assert!(ftr.get_stream(10).unwrap().transactions_loaded);
}

#[test]
fn relation_backfill_on_later_transactions() {
    // relations decoded before a transaction are copied onto it
    let dict = dict_chunk(&[(0, "gen"), (5, "link")]);
    let dir = dir_chunk(&[stream_entry(10, 0, 0), gen_entry(1, 0, 10)]);
    let rels = rel_chunk(&[rel5(5, 1, 2, 10, 20), rel5(5, 3, 1, 20, 10)]);
    let block = tx_block_chunk(10, 0, 9, &tx_payload(&[{
        let mut t = cb_uint(4, 1);
        t.extend(event_item(1, 1, 0, 9));
        t
    }]));
    let file = envelope(&[dict, dir, rels, block]);
    let ftr = read_from_bytes(file).unwrap();
    let tx = &ftr.get_generator(1).unwrap().transactions[0];
    assert_eq!(tx.out_relations.len(), 1);
    assert_eq!(tx.out_relations[0].sink_tx_id, 2);
    assert_eq!(tx.inc_relations.len(), 1);
    assert_eq!(tx.inc_relations[0].source_tx_id, 3);
}

#[test]
fn self_relation_lands_in_both_lists() {
    // a relation whose source and sink are the same transaction is
    // copied into its outgoing and its incoming list alike
    let dict = dict_chunk(&[(0, "gen"), (5, "loop")]);
    let dir = dir_chunk(&[stream_entry(10, 0, 0), gen_entry(1, 0, 10)]);
    let rels = rel_chunk(&[rel5(5, 1, 1, 10, 10)]);
    let block = tx_block_chunk(10, 0, 9, &tx_payload(&[{
        let mut t = cb_uint(4, 1);
        t.extend(event_item(1, 1, 0, 9));
        t
    }]));
    let file = envelope(&[dict, dir, rels, block]);
    let ftr = read_from_bytes(file).unwrap();
    let tx = &ftr.get_generator(1).unwrap().transactions[0];
    assert_eq!(tx.out_relations.len(), 1);
    assert_eq!(tx.inc_relations.len(), 1);
    assert_eq!(tx.inc_relations[0].name, "loop");
}

#[test]
fn attributes_decode_by_type_code() {
    let dict = dict_chunk(&[(0, "gen"), (1, "flag"), (2, "count"), (3, "label")]);
    let dir = dir_chunk(&[stream_entry(10, 0, 0), gen_entry(1, 0, 10)]);
    let tx = {
        let mut t = cb_uint(4, 4);
        t.extend(event_item(1, 1, 0, 9));
        t.extend(attr_item(7, 1, 0, &[0xf5]));  // begin, boolean true
        t.extend(attr_item(8, 2, 2, &cb_uint(1, 41)));  // record, integer -42
        t.extend(attr_item(9, 3, 10, &cb_int(0)));  // end, string from dictionary id 0
        t
    };
    let block = tx_block_chunk(10, 0, 9, &tx_payload(&[tx]));
    let file = envelope(&[dict, dir, block]);
    let ftr = read_from_bytes(file).unwrap();
    let tx = &ftr.get_generator(1).unwrap().transactions[0];
    assert_eq!(tx.attributes.len(), 3);
    assert_eq!(tx.attributes[0].kind, AttributeType::BEGIN);
    assert_eq!(tx.attributes[0].name, "flag");
    assert_eq!(tx.attributes[0].data_type, DataType::Boolean(true));
    assert_eq!(tx.attributes[0].value(), "true");
    assert_eq!(tx.attributes[1].kind, AttributeType::RECORD);
    assert_eq!(tx.attributes[1].data_type, DataType::Integer(-42));
    assert_eq!(tx.attributes[1].value(), "-42");
    assert_eq!(tx.attributes[2].kind, AttributeType::END);
    assert_eq!(tx.attributes[2].data_type, DataType::String("gen".to_string()));
    assert_eq!(tx.attributes[2].value(), "gen");
}

#[test]
fn unrecognized_attribute_code_maps_to_error_value() {
    let dict = dict_chunk(&[(0, "gen"), (1, "odd")]);
    let dir = dir_chunk(&[stream_entry(10, 0, 0), gen_entry(1, 0, 10)]);
    let tx = {
        let mut t = cb_uint(4, 2);
        t.extend(event_item(1, 1, 0, 9));
        t.extend(attr_item(7, 1, 99, &[]));  // unknown code consumes nothing further
        t
    };
    let block = tx_block_chunk(10, 0, 9, &tx_payload(&[tx]));
    let file = envelope(&[dict, dir, block]);
    let ftr = read_from_bytes(file).unwrap();
    let tx = &ftr.get_generator(1).unwrap().transactions[0];
    assert_eq!(tx.attributes[0].data_type, DataType::Error);
    assert_eq!(tx.attributes[0].value(), "");
}

#[test]
fn unknown_generator_for_transaction_is_reference_error() {
    let dict = dict_chunk(&[(0, "gen")]);
    let dir = dir_chunk(&[stream_entry(10, 0, 0)]);
    let block = tx_block_chunk(10, 0, 9, &tx_payload(&[{
        let mut t = cb_uint(4, 1);
        t.extend(event_item(1, 77, 0, 9));
        t
    }]));
    let file = envelope(&[dict, dir, block]);
    assert_eq!(read_from_bytes(file).err(), Some(FtrError::Reference));
}

#[test]
fn block_for_unknown_stream_is_reference_error() {
    let block = tx_block_chunk(99, 0, 9, &tx_payload(&[]));
    let file = envelope(&[block]);
    assert_eq!(read_from_bytes(file).err(), Some(FtrError::Reference));
}

#[test]
fn indefinite_payload_decodes_exactly_up_to_break() {
    // three entries, then the break marker: exactly three relations decoded
    let dict = dict_chunk(&[(5, "x")]);
    let rels = rel_chunk(&[
        rel5(5, 1, 2, 1, 1),
        rel5(5, 2, 3, 1, 1),
        rel5(5, 3, 4, 1, 1),
    ]);
    let file = envelope(&[dict, rels]);
    let ftr = read_from_bytes(file).unwrap();
    assert_eq!(ftr.tx_relations.len(), 3);
}

#[test]
fn deferred_parse_records_offsets_and_skips_bodies() {
    let file = two_generator_file();
    let ftr = read_from_file_bytes(file).unwrap();
    let st = ftr.get_stream(10).unwrap();
    assert!(!st.transactions_loaded);
    assert_eq!(st.tx_block_ids.len(), 1);
    // bodies skipped: no transactions resident
    assert!(ftr.get_generator(1).unwrap().transactions.is_empty());
    // but the declared end times were still folded into the maximum
    assert_eq!(ftr.max_timestamp, 80);
}

#[test]
fn load_stream_fetches_deferred_blocks() {
    let file = two_generator_file();
    let mut ftr = read_from_file_bytes(file.clone()).unwrap();
    ftr.load_stream_into_memory(10, &file).unwrap();
    let g1 = ftr.get_generator(1).unwrap();
    assert_eq!(g1.transactions.len(), 1);
    assert_eq!(g1.transactions[0].get_tx_id(), 1);
    assert!(ftr.get_stream(10).unwrap().transactions_loaded);
    // the other stream stays unloaded
    assert!(ftr.get_generator(2).unwrap().transactions.is_empty());
}

#[test]
fn load_on_buffer_backed_model_is_refused() {
    let file = two_generator_file();
    let mut ftr = read_from_bytes(file.clone()).unwrap();
    assert!(ftr.load_stream_into_memory(10, &file).is_err());
}

#[test]
fn load_drop_load_reproduces_transactions() {
    let file = two_generator_file();
    // one load on a freshly parsed model
    let mut fresh = read_from_file_bytes(file.clone()).unwrap();
    fresh.load_stream_into_memory(10, &file).unwrap();
    let expected = format!("{:?}", fresh.get_generator(1).unwrap().transactions);
    // load, drop, load on another
    let mut ftr = read_from_file_bytes(file.clone()).unwrap();
    ftr.load_stream_into_memory(10, &file).unwrap();
    ftr.drop_stream_from_memory(10);
    assert!(ftr.get_generator(1).unwrap().transactions.is_empty());
    assert!(!ftr.get_stream(10).unwrap().transactions_loaded);
    ftr.load_stream_into_memory(10, &file).unwrap();
    let got = format!("{:?}", ftr.get_generator(1).unwrap().transactions);
    assert_eq!(got, expected);
}

#[test]
fn lookups_by_name() {
    let ftr = read_from_bytes(two_generator_file()).unwrap();
    assert_eq!(ftr.get_stream_from_name("s1".to_string()).unwrap().id, 10);
    assert!(ftr.get_stream_from_name("zzz".to_string()).is_none());
    assert_eq!(ftr.get_generator_from_name(10, "gen".to_string()).unwrap().id, 1);
    assert!(ftr.get_generator_from_name(10, "zzz".to_string()).is_none());
}

#[test]
fn timescale_exponent_table() {
    assert_eq!(Timescale::get_timescale(0), Timescale::S);
    assert_eq!(Timescale::get_timescale(-4), Timescale::Ms);
    assert_eq!(Timescale::get_timescale(-8), Timescale::Us);
    assert_eq!(Timescale::get_timescale(-12), Timescale::Ns);
    assert_eq!(Timescale::get_timescale(-16), Timescale::Ps);
    assert_eq!(Timescale::get_timescale(-20), Timescale::Fs);
    assert_eq!(Timescale::get_timescale(7), Timescale::NoUnit);
}

#[test]
fn probe_checks_leading_tag() {
    assert!(is_ftr(&two_generator_file()));
    assert!(!is_ftr(&vec![0x00, 0x01]));
    assert!(!is_ftr(&Vec::new()));
}

#[test]
fn truncated_source_is_truncated_error() {
    let mut file = two_generator_file();
    file.truncate(file.len() / 2);
    let r = read_from_bytes(file);
    assert!(r.is_err());
}

#[test]
fn definite_directory_counts_entries_from_one() {
    // a definite-length directory array of declared length 3 holds 2 entries
    let dict = dict_chunk(&[(0, "a"), (1, "b")]);
    let mut payload = cb_uint(4, 3);
    payload.extend(stream_entry(1, 0, 0));
    payload.extend(stream_entry(2, 1, 1));
    let mut dir = cb_tag(10);
    dir.extend(cb_bytes(&payload));
    let file = envelope(&[dict, dir]);
    let ftr = read_from_bytes(file).unwrap();
    assert!(ftr.get_stream(1).is_some());
    assert_eq!(ftr.get_stream(2).unwrap().name, "b");
}

#[test]
fn generator_before_its_stream_is_reference_error() {
    let dict = dict_chunk(&[(0, "a")]);
    let dir = dir_chunk(&[gen_entry(1, 0, 10)]);
    let file = envelope(&[dict, dir]);
    assert_eq!(read_from_bytes(file).err(), Some(FtrError::Reference));
}

#[test]
fn unknown_directory_tag_is_format_error() {
    let dict = dict_chunk(&[(0, "a")]);
    let mut entry = cb_tag(23);
    entry.extend(cb_uint(4, 3));
    let dir = dir_chunk(&[entry]);
    let file = envelope(&[dict, dir]);
    assert_eq!(read_from_bytes(file).err(), Some(FtrError::Format));
}

fn compressed_tx_file() -> Vec<u8> {
    let dict = dict_chunk(&[(0, "gen"), (1, "s1")]);
    let dir = dir_chunk(&[stream_entry(10, 1, 1), gen_entry(1, 0, 10)]);
    let block = tx_payload(&[{
        let mut t = cb_uint(4, 1);
        t.extend(event_item(1, 1, 3, 9));
        t
    }]);
    let compressed = lz4_flex::compress(&block);
    let mut chunk = cb_tag(13);
    chunk.extend(cb_uint(4, 5));
    chunk.extend(cb_int(10));
    chunk.extend(cb_int(3));
    chunk.extend(cb_int(9));
    chunk.extend(cb_int(block.len() as u64));
    chunk.extend(cb_bytes(&compressed));
    envelope(&[dict, dir, chunk])
}

#[test]
fn compressed_transaction_block_decodes_eagerly() {
    let ftr = read_from_bytes(compressed_tx_file()).unwrap();
    let g = ftr.get_generator(1).unwrap();
    assert_eq!(g.transactions.len(), 1);
    assert_eq!(g.transactions[0].get_tx_id(), 1);
    assert_eq!(g.transactions[0].get_gen_id(), 1);
    assert_eq!(g.transactions[0].get_start_time(), 3);
    assert_eq!(g.transactions[0].get_end_time(), 9);
    assert_eq!(ftr.max_timestamp, 9);
}

#[test]
fn compressed_transaction_block_loads_lazily() {
    let file = compressed_tx_file();
    let mut ftr = read_from_file_bytes(file.clone()).unwrap();
    assert!(ftr.get_generator(1).unwrap().transactions.is_empty());
    let st = ftr.get_stream(10).unwrap();
    assert_eq!(st.tx_block_ids.len(), 1);
    assert!(st.tx_block_ids[0].1);
    ftr.load_stream_into_memory(10, &file).unwrap();
    let g = ftr.get_generator(1).unwrap();
    assert_eq!(g.transactions.len(), 1);
    assert_eq!(g.transactions[0].get_end_time(), 9);
}

#[test]
fn from_bytes() {
    // an in-memory image is parsed eagerly, with everything resident
    let ftr = read_from_bytes(two_generator_file()).unwrap();
    assert_eq!(ftr.time_scale, Timescale::NoUnit);
    assert_eq!(ftr.max_timestamp, 80);
    assert_eq!(ftr.str_dict.len(), 4);
    assert_eq!(ftr.tx_streams.len(), 2);
    assert_eq!(ftr.tx_generators.len(), 2);
    assert_eq!(ftr.get_generator(1).unwrap().transactions.len(), 1);
    assert_eq!(ftr.get_generator(2).unwrap().transactions.len(), 1);
}

#[test]
fn dictionary_entries_accumulate_across_chunks() {
    let file = envelope(&[
        dict_chunk(&[(0, "a"), (1, "b")]),
        dict_chunk(&[(1, "c"), (2, "d")]),
    ]);
    let ftr = read_from_bytes(file).unwrap();
    assert_eq!(ftr.str_dict.get(&0), Some(&"a".to_string()));
    assert_eq!(ftr.str_dict.get(&1), Some(&"c".to_string()));
    assert_eq!(ftr.str_dict.get(&2), Some(&"d".to_string()));
}
