use ftr_parser::types::{
    Attribute, AttributeType, DataType, Event, Timescale, Transaction, TxGenerator, TxRelation,
    TxStream,
};

#[test]
fn event_new_is_zeroed() {
    let e = Event::new();
    assert_eq!(e.tx_id, 0);
    assert_eq!(e.gen_id, 0);
    assert_eq!(e.start_time, 0);
    assert_eq!(e.end_time, 0);
}

#[test]
fn attribute_constructors_set_kind() {
    let a = Attribute::new_empty();
    assert_eq!(a.kind, AttributeType::NONE);
    assert_eq!(a.name, "");
    assert_eq!(a.data_type, DataType::Error);
    let b = Attribute::new_begin("b".to_string(), DataType::Boolean(true));
    assert_eq!(b.kind, AttributeType::BEGIN);
    assert_eq!(b.name, "b");
    let r = Attribute::new_record("r".to_string(), DataType::Unsigned(7));
    assert_eq!(r.kind, AttributeType::RECORD);
    let e = Attribute::new_end("e".to_string(), DataType::Time(9));
    assert_eq!(e.kind, AttributeType::END);
}

#[test]
fn attribute_value_renders_each_variant() {
    let mk = |d: DataType| Attribute::new_record("n".to_string(), d);
    assert_eq!(mk(DataType::Boolean(true)).value(), "true");
    assert_eq!(mk(DataType::Boolean(false)).value(), "false");
    assert_eq!(mk(DataType::Enumeration("HIGH".to_string())).value(), "HIGH");
    assert_eq!(mk(DataType::Integer(0)).value(), "0");
    assert_eq!(mk(DataType::Integer(-1)).value(), "-1");
    assert_eq!(mk(DataType::Integer(i64::MIN)).value(), "-9223372036854775808");
    assert_eq!(mk(DataType::Unsigned(u64::MAX)).value(), "18446744073709551615");
    assert_eq!(mk(DataType::FloatingPointNumber(1065353216)).value(), "1065353216");
    assert_eq!(mk(DataType::BitVector("1010".to_string())).value(), "1010");
    assert_eq!(mk(DataType::LogicVector("10xz".to_string())).value(), "10xz");
    assert_eq!(mk(DataType::Pointer(4096)).value(), "4096");
    assert_eq!(mk(DataType::String("hi".to_string())).value(), "hi");
    assert_eq!(mk(DataType::Time(123456789)).value(), "123456789");
    assert_eq!(mk(DataType::Error).value(), "");
}

#[test]
fn streams_compare_by_id() {
    let a = TxStream {
        id: 4,
        name: "a".to_string(),
        kind: "k".to_string(),
        generators: vec![1],
        transactions_loaded: false,
        tx_block_ids: vec![],
    };
    let b = TxStream {
        id: 4,
        name: "other".to_string(),
        kind: "x".to_string(),
        generators: vec![],
        transactions_loaded: true,
        tx_block_ids: vec![(7, true)],
    };
    assert!(a == b);
}

#[test]
fn generators_compare_by_id_and_stream() {
    let a = TxGenerator { id: 1, stream_id: 2, name: "a".to_string(), transactions: vec![] };
    let b = TxGenerator { id: 1, stream_id: 2, name: "b".to_string(), transactions: vec![] };
    let c = TxGenerator { id: 1, stream_id: 3, name: "a".to_string(), transactions: vec![] };
    assert!(a == b);
    assert!(a != c);
}

#[test]
fn relations_compare_by_endpoints_not_name() {
    let a = TxRelation {
        name: "x".to_string(),
        source_tx_id: 1,
        sink_tx_id: 2,
        source_stream_id: 3,
        sink_stream_id: 4,
    };
    let mut b = a.clone();
    b.name = "y".to_string();
    assert!(a == b);
    b.sink_tx_id = 9;
    assert!(a != b);
}

#[test]
fn transactions_compare_by_event_ids() {
    let mut e1 = Event::new();
    e1.tx_id = 5;
    e1.gen_id = 6;
    let mut e2 = Event::new();
    e2.tx_id = 5;
    e2.gen_id = 6;
    e2.start_time = 99;
    let a = Transaction { event: e1, attributes: vec![], inc_relations: vec![], out_relations: vec![] };
    let b = Transaction { event: e2, attributes: vec![], inc_relations: vec![], out_relations: vec![] };
    assert!(a == b);
}

#[test]
fn timescale_is_copy_comparable() {
    let t = Timescale::Fs;
    let u = t;
    assert_eq!(t, u);
    assert_ne!(Timescale::S, Timescale::NoUnit);
}
