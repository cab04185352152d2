//! The container-format interpreter: chunk dispatch, transparent block
//! decompression, dictionary resolution, directory construction,
//! transaction-block decoding and relationship resolution, all built on
//! the primitive decoder.

use vstd::prelude::*;

use crate::decoder::{
    item_end, sp_read_bool, sp_read_bstr, sp_read_float_bits, sp_read_id, sp_read_int,
    sp_read_item, sp_read_text, sp_skip_bstr, CborDecoder,
};
use crate::types::{
    dict_view, spec_timescale, AttrView, Attribute, AttributeType, DataType, Event, GenView,
    ModelView, RegView, RelView, StreamView, Timescale, Transaction, TxGenerator, TxRelation,
    TxStream, TxView, ValView, FTR,
};
use crate::FtrError;

verus! {

broadcast use {vstd::std_specs::hash::group_hash_axioms, vstd::seq_lib::lemma_seq_contains_after_push, vstd::seq::Seq::lemma_filter_push, vstd::seq::Seq::lemma_take_succ_push};

/// What decoding `n` dictionary pairs starting at `i` does to the
/// dictionary `d`: each pair is an id and a text, inserted in order, a
/// later pair overwriting an earlier one with the same id.
pub open spec fn sp_dict_pairs(s: Seq<u8>, i: int, n: nat, d: Map<usize, Seq<char>>) -> Result<
    (Map<usize, Seq<char>>, int),
    FtrError,
>
    decreases n,
{
    if n == 0 {
        Ok((d, i))
    } else {
        match sp_read_id(s, i) {
            Err(e) => Err(e),
            Ok((k, i2)) => match sp_read_text(s, i2) {
                Err(e) => Err(e),
                Ok((cs, i3)) => sp_dict_pairs(s, i3, (n - 1) as nat, d.insert(k, cs)),
            },
        }
    }
}

/// What decoding a whole dictionary payload does: a map-length header,
/// then that many pairs; a non-positive length (the indefinite sentinel
/// included) contributes nothing.
pub open spec fn sp_dict_chunk(s: Seq<u8>, i: int, d: Map<usize, Seq<char>>) -> Result<
    (Map<usize, Seq<char>>, int),
    FtrError,
> {
    match sp_read_item(s, i, 5) {
        Err(e) => Err(e),
        Ok((sz, i2)) => if sz <= 0 {
            Ok((d, i2))
        } else {
            sp_dict_pairs(s, i2, sz as nat, d)
        },
    }
}

/// Everything of the model except the dictionary is untouched.
pub open spec fn same_but_dict(f2: FTR, f1: FTR) -> bool {
    &&& f2.time_scale == f1.time_scale
    &&& f2.max_timestamp == f1.max_timestamp
    &&& f2.tx_streams@ == f1.tx_streams@
    &&& f2.tx_generators@ == f1.tx_generators@
    &&& f2.tx_relations@ == f1.tx_relations@
    &&& f2.stream_ids@ == f1.stream_ids@
    &&& f2.generator_ids@ == f1.generator_ids@
    &&& f2.file_backed == f1.file_backed
}

/// Everything of the model except the stream and generator registries is
/// untouched.
pub open spec fn same_but_registries(f2: FTR, f1: FTR) -> bool {
    &&& f2.time_scale == f1.time_scale
    &&& f2.max_timestamp == f1.max_timestamp
    &&& f2.str_dict@ == f1.str_dict@
    &&& f2.tx_relations@ == f1.tx_relations@
    &&& f2.file_backed == f1.file_backed
}

/// Registering a stream: its entry is fresh (no generators, no recorded
/// blocks, not resident), and a repeated id overwrites the earlier entry
/// while keeping its place in the registration order.
pub open spec fn sp_stream_entry(reg: RegView, sid: usize, name: Seq<char>, kind: Seq<char>) -> RegView {
    RegView {
        streams: reg.streams.insert(
            sid,
            StreamView {
                id: sid,
                name,
                kind,
                generators: Seq::empty(),
                loaded: false,
                blocks: Seq::empty(),
            },
        ),
        stream_order: if reg.streams.contains_key(sid) {
            reg.stream_order
        } else {
            reg.stream_order.push(sid)
        },
        gens: reg.gens,
        gen_order: reg.gen_order,
    }
}

/// Registering a generator under a stream already present: the generator
/// entry is fresh (no transactions), and its id is appended to the
/// stream's generator list.
pub open spec fn sp_generator_entry(reg: RegView, gid: usize, name: Seq<char>, sid: usize) -> RegView {
    let st = reg.streams[sid];
    RegView {
        streams: reg.streams.insert(sid, StreamView { generators: st.generators.push(gid), ..st }),
        stream_order: reg.stream_order,
        gens: reg.gens.insert(gid, GenView { id: gid, stream_id: sid, name, txs: Seq::empty() }),
        gen_order: if reg.gens.contains_key(gid) {
            reg.gen_order
        } else {
            reg.gen_order.push(gid)
        },
    }
}

/// What decoding one directory entry does to the registries: a tag, then
/// a three-element array. Tag 16 is a stream (id, name id, kind id); tag
/// 17 a generator (id, name id, owning stream id). Name and kind ids must
/// be in the dictionary and a generator's stream must already be
/// registered; any other tag or array length is fatal.
pub open spec fn sp_dir_entry(s: Seq<u8>, i: int, dict: Map<usize, Seq<char>>, reg: RegView) -> Result<
    (RegView, int),
    FtrError,
> {
    match sp_read_item(s, i, 6) {
        Err(e) => Err(e),
        Ok((tag, i1)) => if tag == 16 {
            match sp_read_item(s, i1, 4) {
                Err(e) => Err(e),
                Ok((len, i2)) => if len != 3 {
                    Err(FtrError::Format)
                } else {
                    match sp_read_id(s, i2) {
                        Err(e) => Err(e),
                        Ok((sid, i3)) => match sp_read_id(s, i3) {
                            Err(e) => Err(e),
                            Ok((nid, i4)) => if !dict.contains_key(nid) {
                                Err(FtrError::Reference)
                            } else {
                                match sp_read_id(s, i4) {
                                    Err(e) => Err(e),
                                    Ok((kid, i5)) => if !dict.contains_key(kid) {
                                        Err(FtrError::Reference)
                                    } else {
                                        Ok((sp_stream_entry(reg, sid, dict[nid], dict[kid]), i5))
                                    },
                                }
                            },
                        },
                    }
                },
            }
        } else if tag == 17 {
            match sp_read_item(s, i1, 4) {
                Err(e) => Err(e),
                Ok((len, i2)) => if len != 3 {
                    Err(FtrError::Format)
                } else {
                    match sp_read_id(s, i2) {
                        Err(e) => Err(e),
                        Ok((gid, i3)) => match sp_read_id(s, i3) {
                            Err(e) => Err(e),
                            Ok((nid, i4)) => if !dict.contains_key(nid) {
                                Err(FtrError::Reference)
                            } else {
                                match sp_read_id(s, i4) {
                                    Err(e) => Err(e),
                                    Ok((sid, i5)) => if !reg.streams.contains_key(sid) {
                                        Err(FtrError::Reference)
                                    } else {
                                        Ok((sp_generator_entry(reg, gid, dict[nid], sid), i5))
                                    },
                                }
                            },
                        },
                    }
                },
            }
        } else {
            Err(FtrError::Format)
        },
    }
}

/// A directory entry that decodes consumes at least one byte and stays
/// within the source.
pub proof fn lemma_sp_dir_entry_advances(s: Seq<u8>, i: int, dict: Map<usize, Seq<char>>, reg: RegView)
    ensures
        sp_dir_entry(s, i, dict, reg) matches Ok(done) ==> i < done.1 <= s.len(),
{
}

/// What decoding directory entries up to the break marker does: the
/// marker is left unconsumed, and an exhausted source ends the run
/// without failing.
pub open spec fn sp_dir_entries(s: Seq<u8>, i: int, dict: Map<usize, Seq<char>>, reg: RegView) -> Result<
    (RegView, int),
    FtrError,
>
    decreases s.len() - i,
{
    if !(0 <= i < s.len()) {
        Ok((reg, i))
    } else if s[i] == 0xff {
        Ok((reg, i))
    } else {
        match sp_dir_entry(s, i, dict, reg) {
            Err(e) => Err(e),
            Ok((reg2, i2)) => if i < i2 <= s.len() {
                sp_dir_entries(s, i2, dict, reg2)
            } else {
                Err(FtrError::Format)
            },
        }
    }
}

/// What decoding a definite run of `n` directory entries does.
pub open spec fn sp_dir_n(s: Seq<u8>, i: int, n: nat, dict: Map<usize, Seq<char>>, reg: RegView) -> Result<
    (RegView, int),
    FtrError,
>
    decreases n,
{
    if n == 0 {
        Ok((reg, i))
    } else {
        match sp_dir_entry(s, i, dict, reg) {
            Err(e) => Err(e),
            Ok((reg2, i2)) => sp_dir_n(s, i2, (n - 1) as nat, dict, reg2),
        }
    }
}

/// What decoding a whole directory payload does: an array-length header;
/// an indefinite length runs to the break marker, a definite length `n`
/// holds `n - 1` entries (the first slot of the array is a format
/// artifact, not an entry).
pub open spec fn sp_dir_chunk(s: Seq<u8>, i: int, dict: Map<usize, Seq<char>>, reg: RegView) -> Result<
    (RegView, int),
    FtrError,
> {
    match sp_read_item(s, i, 4) {
        Err(e) => Err(e),
        Ok((sz, i2)) => if sz < 0 {
            sp_dir_entries(s, i2, dict, reg)
        } else {
            sp_dir_n(s, i2, (if sz <= 1 { 0 } else { sz - 1 }) as nat, dict, reg)
        },
    }
}

/// The first transaction of a list whose id is `tx_id`, if any.
pub open spec fn sp_find_tx(txs: Seq<TxView>, tx_id: usize) -> Option<
    TxView,
>
    decreases txs.len(),
{
    if txs.len() == 0 {
        Option::None
    } else if txs[0].event.tx_id == tx_id {
        Option::Some(txs[0])
    } else {
        sp_find_tx(txs.drop_first(), tx_id)
    }
}

/// The stream id an endpoint of a legacy three-field relation resolves
/// to: walk the generators in registration order; in each, find the
/// first transaction with the endpoint's id; the first generator whose
/// found transaction also names that generator wins; no match resolves
/// to stream 0.
pub open spec fn sp_backfill(
    gens: Map<usize, GenView>,
    order: Seq<usize>,
    j: int,
    tx_id: usize,
) -> usize
    decreases order.len() - j,
{
    if !(0 <= j < order.len()) {
        0
    } else {
        let gid = order[j];
        let g = gens[gid];
        match sp_find_tx(g.txs, tx_id) {
            Option::Some(tx) => if tx.event.gen_id == gid {
                g.stream_id
            } else {
                sp_backfill(gens, order, j + 1, tx_id)
            },
            Option::None => sp_backfill(gens, order, j + 1, tx_id),
        }
    }
}

/// What decoding one relation entry yields: a three- or five-element
/// array of type id, source and sink transaction ids, and — in the
/// five-element form only — explicit source and sink stream ids; the
/// three-element legacy form derives them by the backfill search. The
/// type id names the relation through the dictionary.
pub open spec fn sp_rel_entry(s: Seq<u8>, i: int, dict: Map<usize, Seq<char>>, reg: RegView) -> Result<
    (RelView, int),
    FtrError,
> {
    match sp_read_item(s, i, 4) {
        Err(e) => Err(e),
        Ok((sz, i1)) => if sz != 3 && sz != 5 {
            Err(FtrError::Format)
        } else {
            match sp_read_id(s, i1) {
                Err(e) => Err(e),
                Ok((type_id, i2)) => match sp_read_id(s, i2) {
                    Err(e) => Err(e),
                    Ok((from_tx, i3)) => match sp_read_id(s, i3) {
                        Err(e) => Err(e),
                        Ok((to_tx, i4)) => if sz == 5 {
                            match sp_read_id(s, i4) {
                                Err(e) => Err(e),
                                Ok((fs, i5)) => match sp_read_id(s, i5) {
                                    Err(e) => Err(e),
                                    Ok((ts, i6)) => if !dict.contains_key(type_id) {
                                        Err(FtrError::Reference)
                                    } else {
                                        Ok(
                                            (
                                                RelView {
                                                    name: dict[type_id],
                                                    source_tx_id: from_tx,
                                                    sink_tx_id: to_tx,
                                                    source_stream_id: fs,
                                                    sink_stream_id: ts,
                                                },
                                                i6,
                                            ),
                                        )
                                    },
                                },
                            }
                        } else {
                            if !dict.contains_key(type_id) {
                                Err(FtrError::Reference)
                            } else {
                                Ok(
                                    (
                                        RelView {
                                            name: dict[type_id],
                                            source_tx_id: from_tx,
                                            sink_tx_id: to_tx,
                                            source_stream_id: sp_backfill(
                                                reg.gens,
                                                reg.gen_order,
                                                0,
                                                from_tx,
                                            ),
                                            sink_stream_id: sp_backfill(
                                                reg.gens,
                                                reg.gen_order,
                                                0,
                                                to_tx,
                                            ),
                                        },
                                        i4,
                                    ),
                                )
                            }
                        },
                    },
                },
            }
        },
    }
}

/// A relation entry that decodes consumes at least one byte and stays
/// within the source.
pub proof fn lemma_sp_rel_entry_advances(s: Seq<u8>, i: int, dict: Map<usize, Seq<char>>, reg: RegView)
    ensures
        sp_rel_entry(s, i, dict, reg) matches Ok(done) ==> i < done.1 <= s.len(),
{
}

/// What decoding relation entries up to the break marker appends to the
/// relation list; an exhausted source ends the run without failing.
pub open spec fn sp_rels(
    s: Seq<u8>,
    i: int,
    dict: Map<usize, Seq<char>>,
    reg: RegView,
    rels: Seq<RelView>,
) -> Result<(Seq<RelView>, int), FtrError>
    decreases s.len() - i,
{
    if !(0 <= i < s.len()) {
        Ok((rels, i))
    } else if s[i] == 0xff {
        Ok((rels, i))
    } else {
        match sp_rel_entry(s, i, dict, reg) {
            Err(e) => Err(e),
            Ok((rv, i2)) => if i < i2 <= s.len() {
                sp_rels(s, i2, dict, reg, rels.push(rv))
            } else {
                Err(FtrError::Format)
            },
        }
    }
}

/// What decoding a whole relationship payload does: the payload must
/// open as an indefinite array, then entries run to the break marker.
pub open spec fn sp_rel_chunk(
    s: Seq<u8>,
    i: int,
    dict: Map<usize, Seq<char>>,
    reg: RegView,
    rels: Seq<RelView>,
) -> Result<(Seq<RelView>, int), FtrError> {
    match sp_read_item(s, i, 4) {
        Err(e) => Err(e),
        Ok((sz, i2)) => if sz != -1 {
            Err(FtrError::Format)
        } else {
            sp_rels(s, i2, dict, reg, rels)
        },
    }
}

/// A 64-bit value reinterpreted as unsigned, as storing a signed decoded
/// integer into an unsigned attribute field does.
pub open spec fn as_unsigned64(v: int) -> u64 {
    if v >= 0 {
        v as u64
    } else {
        (v + 0x10000000000000000) as u64
    }
}

/// What reading one attribute value yields, by type code: a boolean, a
/// dictionary-resolved label, an integer of the matching signedness, or
/// raw 32-bit float bits; an unrecognized code yields the error value
/// with nothing consumed.
pub open spec fn sp_attr_value(s: Seq<u8>, i: int, dict: Map<usize, Seq<char>>, code: int) -> Result<
    (ValView, int),
    FtrError,
> {
    if code == 0 {
        match sp_read_bool(s, i) {
            Err(e) => Err(e),
            Ok((b, j)) => Ok((ValView::Bool(b), j)),
        }
    } else if code == 1 || code == 5 || code == 6 || code == 10 {
        match sp_read_id(s, i) {
            Err(e) => Err(e),
            Ok((id, j)) => if !dict.contains_key(id) {
                Err(FtrError::Reference)
            } else if code == 1 {
                Ok((ValView::Enum(dict[id]), j))
            } else if code == 5 {
                Ok((ValView::BitVec(dict[id]), j))
            } else if code == 6 {
                Ok((ValView::LogicVec(dict[id]), j))
            } else {
                Ok((ValView::Str(dict[id]), j))
            },
        }
    } else if code == 2 {
        match sp_read_int(s, i) {
            Err(e) => Err(e),
            Ok((v, j)) => Ok((ValView::Int(v as i64), j)),
        }
    } else if code == 3 || code == 9 || code == 11 {
        match sp_read_int(s, i) {
            Err(e) => Err(e),
            Ok((v, j)) => if code == 3 {
                Ok((ValView::Uns(as_unsigned64(v)), j))
            } else if code == 9 {
                Ok((ValView::Ptr(as_unsigned64(v)), j))
            } else {
                Ok((ValView::Time(as_unsigned64(v)), j))
            },
        }
    } else if code == 4 || code == 7 || code == 8 {
        match sp_read_float_bits(s, i) {
            Err(e) => Err(e),
            Ok((bits, j)) => if code == 4 {
                Ok((ValView::FloatBits(bits), j))
            } else if code == 7 {
                Ok((ValView::Fixed(bits), j))
            } else {
                Ok((ValView::UFixed(bits), j))
            },
        }
    } else {
        Ok((ValView::Error, i))
    }
}

/// What decoding one attribute yields: a name id, a type code, the value
/// the code dictates, and the name resolved against the dictionary last.
pub open spec fn sp_attr(s: Seq<u8>, i: int, dict: Map<usize, Seq<char>>, kind: AttributeType) -> Result<
    (AttrView, int),
    FtrError,
> {
    match sp_read_id(s, i) {
        Err(e) => Err(e),
        Ok((nid, i1)) => match sp_read_int(s, i1) {
            Err(e) => Err(e),
            Ok((code, i2)) => match sp_attr_value(s, i2, dict, code) {
                Err(e) => Err(e),
                Ok((val, i3)) => if !dict.contains_key(nid) {
                    Err(FtrError::Reference)
                } else {
                    Ok((AttrView { kind, name: dict[nid], value: val }, i3))
                },
            },
        },
    }
}

/// What decoding the `n` tag-prefixed items of one transaction entry
/// accumulates: a tag-6 event (the last one wins) and tag-7, -8 and -9
/// attributes in order; any other tag is fatal.
pub open spec fn sp_tx_items(
    s: Seq<u8>,
    i: int,
    n: nat,
    dict: Map<usize, Seq<char>>,
    ev: Event,
    attrs: Seq<AttrView>,
) -> Result<((Event, Seq<AttrView>), int), FtrError>
    decreases n,
{
    if n == 0 {
        Ok(((ev, attrs), i))
    } else {
        match sp_read_item(s, i, 6) {
            Err(e) => Err(e),
            Ok((tag, i1)) => if tag == 6 {
                match sp_read_item(s, i1, 4) {
                    Err(e) => Err(e),
                    Ok((len, i2)) => if len != 4 {
                        Err(FtrError::Format)
                    } else {
                        match sp_read_id(s, i2) {
                            Err(e) => Err(e),
                            Ok((tx_id, i3)) => match sp_read_id(s, i3) {
                                Err(e) => Err(e),
                                Ok((gen_id, i4)) => match sp_read_int(s, i4) {
                                    Err(e) => Err(e),
                                    Ok((st, i5)) => match sp_read_int(s, i5) {
                                        Err(e) => Err(e),
                                        Ok((en, i6)) => sp_tx_items(
                                            s,
                                            i6,
                                            (n - 1) as nat,
                                            dict,
                                            Event {
                                                tx_id,
                                                gen_id,
                                                start_time: st as i64,
                                                end_time: en as i64,
                                            },
                                            attrs,
                                        ),
                                    },
                                },
                            },
                        }
                    },
                }
            } else if tag == 7 || tag == 8 || tag == 9 {
                match sp_read_item(s, i1, 4) {
                    Err(e) => Err(e),
                    Ok((len, i2)) => if len != 3 {
                        Err(FtrError::Format)
                    } else {
                        let kind = if tag == 7 {
                            AttributeType::BEGIN
                        } else if tag == 8 {
                            AttributeType::RECORD
                        } else {
                            AttributeType::END
                        };
                        match sp_attr(s, i2, dict, kind) {
                            Err(e) => Err(e),
                            Ok((av, i3)) => sp_tx_items(
                                s,
                                i3,
                                (n - 1) as nat,
                                dict,
                                ev,
                                attrs.push(av),
                            ),
                        }
                    },
                }
            } else {
                Err(FtrError::Format)
            },
        }
    }
}

/// What decoding one transaction entry yields: an array of tag-prefixed
/// items, empty when the declared length is not positive.
pub open spec fn sp_tx(s: Seq<u8>, i: int, dict: Map<usize, Seq<char>>) -> Result<
    ((Event, Seq<AttrView>), int),
    FtrError,
> {
    match sp_read_item(s, i, 4) {
        Err(e) => Err(e),
        Ok((len, i1)) => sp_tx_items(
            s,
            i1,
            (if len <= 0 {
                0
            } else {
                len
            }) as nat,
            dict,
            Event { tx_id: 0, gen_id: 0, start_time: 0, end_time: 0 },
            Seq::empty(),
        ),
    }
}

/// The relations of a list whose source is the given transaction, in
/// list order.
pub open spec fn sp_out_rels(rels: Seq<RelView>, tx: usize) -> Seq<RelView> {
    rels.filter(|r: RelView| r.source_tx_id == tx)
}

/// The relations of a list whose sink is the given transaction, in
/// list order: a self-relation appears in both of its lists.
pub open spec fn sp_inc_rels(rels: Seq<RelView>, tx: usize) -> Seq<RelView> {
    rels.filter(|r: RelView| r.sink_tx_id == tx)
}

/// The finished view of one decoded transaction: its incoming and
/// outgoing relation lists are computed once, from the relations known
/// when it is decoded.
pub open spec fn sp_tx_view(ev: Event, attrs: Seq<AttrView>, rels: Seq<RelView>) -> TxView {
    TxView {
        event: ev,
        attrs,
        inc: sp_inc_rels(rels, ev.tx_id),
        out: sp_out_rels(rels, ev.tx_id),
    }
}

/// Committing one decoded transaction: it is appended to the transaction
/// list of the generator its event names.
pub open spec fn sp_commit_one(
    gens: Map<usize, GenView>,
    ev: Event,
    attrs: Seq<AttrView>,
    rels: Seq<RelView>,
) -> Map<usize, GenView> {
    let g = gens[ev.gen_id];
    gens.insert(ev.gen_id, GenView { txs: g.txs.push(sp_tx_view(ev, attrs, rels)), ..g })
}

/// Committing a run of decoded transactions in order.
pub open spec fn sp_commit_txs(
    gens: Map<usize, GenView>,
    txs: Seq<(Event, Seq<AttrView>)>,
    rels: Seq<RelView>,
) -> Map<usize, GenView>
    decreases txs.len(),
{
    if txs.len() == 0 {
        gens
    } else {
        sp_commit_txs(sp_commit_one(gens, txs[0].0, txs[0].1, rels), txs.drop_first(), rels)
    }
}

/// Committing one more transaction after a run commits it last.
pub proof fn lemma_sp_commit_snoc(
    gens: Map<usize, GenView>,
    txs: Seq<(Event, Seq<AttrView>)>,
    t: (Event, Seq<AttrView>),
    rels: Seq<RelView>,
)
    ensures
        sp_commit_txs(gens, txs.push(t), rels) == sp_commit_one(
            sp_commit_txs(gens, txs, rels),
            t.0,
            t.1,
            rels,
        ),
    decreases txs.len(),
{
    if txs.len() == 0 {
        assert(txs.push(t)[0] == t);
        assert(txs.push(t).drop_first() =~= txs);
        assert(sp_commit_txs(sp_commit_one(gens, t.0, t.1, rels), txs, rels) == sp_commit_one(
            gens,
            t.0,
            t.1,
            rels,
        ));
    } else {
        let c0 = sp_commit_one(gens, txs[0].0, txs[0].1, rels);
        assert(txs.push(t)[0] == txs[0]);
        assert(txs.push(t).drop_first() =~= txs.drop_first().push(t));
        assert(sp_commit_txs(gens, txs.push(t), rels) == sp_commit_txs(
            c0,
            txs.drop_first().push(t),
            rels,
        ));
        lemma_sp_commit_snoc(c0, txs.drop_first(), t, rels);
        assert(sp_commit_txs(gens, txs, rels) == sp_commit_txs(c0, txs.drop_first(), rels));
    }
}

/// What decoding transaction entries up to the break marker accumulates,
/// each checked against the registered generators; an exhausted source
/// ends the run without failing.
pub open spec fn sp_txs(
    s: Seq<u8>,
    i: int,
    dict: Map<usize, Seq<char>>,
    gdom: Set<usize>,
    acc: Seq<(Event, Seq<AttrView>)>,
) -> Result<(Seq<(Event, Seq<AttrView>)>, int), FtrError>
    decreases s.len() - i,
{
    if !(0 <= i < s.len()) {
        Ok((acc, i))
    } else if s[i] == 0xff {
        Ok((acc, i))
    } else {
        match sp_tx(s, i, dict) {
            Err(e) => Err(e),
            Ok((t, i2)) => if !gdom.contains(t.0.gen_id) {
                Err(FtrError::Reference)
            } else if i < i2 <= s.len() {
                sp_txs(s, i2, dict, gdom, acc.push(t))
            } else {
                Err(FtrError::Format)
            },
        }
    }
}

/// What decoding a whole transaction-block payload does: the payload
/// must open as an indefinite array, then transaction entries run to the
/// break marker.
pub open spec fn sp_tx_block(s: Seq<u8>, i: int, dict: Map<usize, Seq<char>>, gdom: Set<usize>) -> Result<
    (Seq<(Event, Seq<AttrView>)>, int),
    FtrError,
> {
    match sp_read_item(s, i, 4) {
        Err(e) => Err(e),
        Ok((sz, i2)) => if sz != -1 {
            Err(FtrError::Format)
        } else {
            sp_txs(s, i2, dict, gdom, Seq::empty())
        },
    }
}

/// Everything of the model except the generators' transaction lists is
/// untouched.
pub open spec fn same_but_transactions(f2: FTR, f1: FTR) -> bool {
    &&& f2.time_scale == f1.time_scale
    &&& f2.max_timestamp == f1.max_timestamp
    &&& f2.str_dict@ == f1.str_dict@
    &&& f2.tx_streams@ == f1.tx_streams@
    &&& f2.tx_relations@ == f1.tx_relations@
    &&& f2.stream_ids@ == f1.stream_ids@
    &&& f2.generator_ids@ == f1.generator_ids@
    &&& f2.file_backed == f1.file_backed
}

/// Everything of the model except the relation list is untouched.
pub open spec fn same_but_relations(f2: FTR, f1: FTR) -> bool {
    &&& f2.time_scale == f1.time_scale
    &&& f2.max_timestamp == f1.max_timestamp
    &&& f2.str_dict@ == f1.str_dict@
    &&& f2.tx_streams@ == f1.tx_streams@
    &&& f2.tx_generators@ == f1.tx_generators@
    &&& f2.stream_ids@ == f1.stream_ids@
    &&& f2.generator_ids@ == f1.generator_ids@
    &&& f2.file_backed == f1.file_backed
}

/// Narrow a decoded integer to an id; ids are small non-negative values,
/// anything outside the `usize` range is a format failure.
fn int_to_id(v: i64) -> (r: Result<usize, FtrError>)
    ensures
        match r {
            Ok(u) => 0 <= v <= usize::MAX && u == v,
            Err(e) => e == FtrError::Format && !(0 <= v <= usize::MAX),
        },
{
    if v < 0 {
        return Err(FtrError::Format);
    }
    if (v as u64) > (usize::MAX as u64) {
        return Err(FtrError::Format);
    }
    Ok(v as usize)
}

/// Register a stream under its id: a fresh entry with no generators and
/// no recorded blocks; a repeated id overwrites the earlier entry but
/// keeps its place in the registration order.
fn register_stream(ftr: &mut FTR, stream_id: usize, name: String, kind: String)
    requires
        old(ftr).wf(),
    ensures
        final(ftr).wf(),
        same_but_registries(*final(ftr), *old(ftr)),
        final(ftr).str_dict@ == old(ftr).str_dict@,
        final(ftr).reg_view() == sp_stream_entry(old(ftr).reg_view(), stream_id, name@, kind@),
        final(ftr).tx_streams@.contains_key(stream_id),
{
    let ghost reg0 = ftr.reg_view();
    let ghost n = name@;
    let ghost k = kind@;
    let is_new = !ftr.tx_streams.contains_key(&stream_id);
    ftr.tx_streams.insert(
        stream_id,
        TxStream {
            id: stream_id,
            name,
            kind,
            generators: Vec::new(),
            transactions_loaded: false,
            tx_block_ids: Vec::new(),
        },
    );
    if is_new {
        ftr.stream_ids.push(stream_id);
    }
    proof {
        let done = sp_stream_entry(reg0, stream_id, n, k);
        assert(ftr.reg_view().streams =~~= done.streams);
        assert(ftr.reg_view().gens =~~= done.gens);
        assert(ftr.reg_view().stream_order =~= done.stream_order);
        assert(ftr.reg_view() =~~= done);
        let o = *old(ftr);
        if is_new {
            assert(!o.stream_ids@.contains(stream_id)) by {
                if o.stream_ids@.contains(stream_id) {
                    let j = choose|j: int|
                        0 <= j < o.stream_ids@.len() && (#[trigger] o.stream_ids@[j]) == stream_id;
                    assert(o.tx_streams@.contains_key(o.stream_ids@[j]));
                }
            }
            assert(ftr.stream_ids@.no_duplicates()) by {
                assert forall|p: int, q: int|
                    0 <= p < ftr.stream_ids@.len() && 0 <= q < ftr.stream_ids@.len() && p
                        != q implies ftr.stream_ids@[p] != ftr.stream_ids@[q] by {
                    let last = o.stream_ids@.len() as int;
                    if p == last {
                        assert(o.stream_ids@.contains(o.stream_ids@[q]));
                    } else if q == last {
                        assert(o.stream_ids@.contains(o.stream_ids@[p]));
                    }
                }
            }
        }
        assert forall|j: int| 0 <= j < ftr.stream_ids@.len() implies ftr.tx_streams@.contains_key(
            #[trigger] ftr.stream_ids@[j],
        ) by {
            if j < o.stream_ids@.len() {
                assert(o.tx_streams@.contains_key(o.stream_ids@[j]));
            }
        }
        assert forall|k2: usize| #[trigger]
            ftr.tx_streams@.contains_key(k2) implies ftr.stream_ids@.contains(k2) by {
            if k2 == stream_id {
                if is_new {
                    assert(ftr.stream_ids@[o.stream_ids@.len() as int] == stream_id);
                } else {
                    assert(o.tx_streams@.contains_key(k2));
                }
            } else {
                assert(o.tx_streams@.contains_key(k2));
            }
        }
        assert forall|k2: usize|
            #![trigger ftr.tx_streams@[k2]]
            ftr.tx_streams@.contains_key(k2) implies (forall|j: int|
            0 <= j < ftr.tx_streams@[k2].generators@.len() ==> ftr.tx_generators@.contains_key(
                #[trigger] ftr.tx_streams@[k2].generators@[j],
            )) by {
            if k2 != stream_id {
                assert(ftr.tx_streams@[k2] == o.tx_streams@[k2]);
                assert(o.tx_streams@.contains_key(k2));
            }
        }
    }
}

/// Register a generator under its id, and append it to the generator
/// list of its (already registered) stream.
fn register_generator(ftr: &mut FTR, gen_id: usize, name: String, stream_id: usize)
    requires
        old(ftr).wf(),
        old(ftr).tx_streams@.contains_key(stream_id),
    ensures
        final(ftr).wf(),
        same_but_registries(*final(ftr), *old(ftr)),
        final(ftr).str_dict@ == old(ftr).str_dict@,
        final(ftr).reg_view() == sp_generator_entry(old(ftr).reg_view(), gen_id, name@, stream_id),
{
    let ghost reg0 = ftr.reg_view();
    let ghost n = name@;
    let is_new = !ftr.tx_generators.contains_key(&gen_id);
    ftr.tx_generators.insert(
        gen_id,
        TxGenerator { id: gen_id, stream_id, name, transactions: Vec::new() },
    );
    if is_new {
        ftr.generator_ids.push(gen_id);
    }
    match ftr.tx_streams.remove(&stream_id) {
        Some(mut st) => {
            st.generators.push(gen_id);
            ftr.tx_streams.insert(stream_id, st);
        },
        None => {
            proof {
                assert(false);
            }
        },
    }
    proof {
        let done = sp_generator_entry(reg0, gen_id, n, stream_id);
        assert(ftr.reg_view().streams =~~= done.streams);
        assert(ftr.reg_view().gens =~~= done.gens);
        assert(ftr.reg_view() =~~= done);
        let o = *old(ftr);
        if is_new {
            assert(!o.generator_ids@.contains(gen_id)) by {
                if o.generator_ids@.contains(gen_id) {
                    let j = choose|j: int|
                        0 <= j < o.generator_ids@.len() && (#[trigger] o.generator_ids@[j])
                            == gen_id;
                    assert(o.tx_generators@.contains_key(o.generator_ids@[j]));
                }
            }
            assert(ftr.generator_ids@.no_duplicates()) by {
                assert forall|p: int, q: int|
                    0 <= p < ftr.generator_ids@.len() && 0 <= q < ftr.generator_ids@.len() && p
                        != q implies ftr.generator_ids@[p] != ftr.generator_ids@[q] by {
                    let last = o.generator_ids@.len() as int;
                    if p == last {
                        assert(o.generator_ids@.contains(o.generator_ids@[q]));
                    } else if q == last {
                        assert(o.generator_ids@.contains(o.generator_ids@[p]));
                    }
                }
            }
        }
        assert forall|j: int|
            0 <= j < ftr.generator_ids@.len() implies ftr.tx_generators@.contains_key(
            #[trigger] ftr.generator_ids@[j],
        ) by {
            if j < o.generator_ids@.len() {
                assert(o.tx_generators@.contains_key(o.generator_ids@[j]));
            }
        }
        assert forall|k2: usize| #[trigger]
            ftr.tx_generators@.contains_key(k2) implies ftr.generator_ids@.contains(k2) by {
            if k2 == gen_id {
                if is_new {
                    assert(ftr.generator_ids@[o.generator_ids@.len() as int] == gen_id);
                } else {
                    assert(o.tx_generators@.contains_key(k2));
                }
            } else {
                assert(o.tx_generators@.contains_key(k2));
            }
        }
        assert forall|k2: usize|
            #![trigger ftr.tx_streams@[k2]]
            ftr.tx_streams@.contains_key(k2) implies (forall|j: int|
            0 <= j < ftr.tx_streams@[k2].generators@.len() ==> ftr.tx_generators@.contains_key(
                #[trigger] ftr.tx_streams@[k2].generators@[j],
            )) by {
            assert(o.tx_streams@.contains_key(k2));
            if k2 == stream_id {
                let lst = ftr.tx_streams@[k2].generators@;
                assert(lst == o.tx_streams@[k2].generators@.push(gen_id));
                assert forall|j: int|
                    0 <= j < lst.len() implies ftr.tx_generators@.contains_key(
                    #[trigger] lst[j],
                ) by {
                    if j < o.tx_streams@[k2].generators@.len() {
                        assert(o.tx_generators@.contains_key(o.tx_streams@[k2].generators@[j]));
                    }
                }
            } else {
                assert(ftr.tx_streams@[k2] == o.tx_streams@[k2]);
            }
        }
    }
}

/// Decode one directory entry into the registries: a tagged
/// three-element array describing either a stream or a generator, with
/// names and kinds resolved against the dictionary at once.
pub(crate) fn parse_dir_entry(ftr: &mut FTR, cbd: &mut CborDecoder) -> (r: Result<(), FtrError>)
    requires
        old(cbd).wf(),
        old(ftr).wf(),
    ensures
        final(cbd).wf(),
        final(ftr).wf(),
        final(cbd).data() == old(cbd).data(),
        same_but_registries(*final(ftr), *old(ftr)),
        ({
            let sp = sp_dir_entry(
                old(cbd).data(),
                old(cbd).cursor(),
                dict_view(old(ftr).str_dict@),
                old(ftr).reg_view(),
            );
            match (r, sp) {
                (Ok(_), Ok(done)) => {
                    &&& final(ftr).reg_view() == done.0
                    &&& final(cbd).cursor() == done.1
                },
                (Err(e), Err(e2)) => e == e2 && *final(ftr) == *old(ftr),
                _ => false,
            }
        }),
{
    proof {
        old(cbd).lemma_wf_bounds();
    }
    let dir_tag = cbd.read_tag()?;
    if dir_tag == 16 {
        let len = cbd.read_array_length()?;
        if len != 3 {
            return Err(FtrError::Format);
        }
        let v1 = cbd.read_int()?;
        let stream_id = int_to_id(v1)?;
        let v2 = cbd.read_int()?;
        let name_id = int_to_id(v2)?;
        let name = match ftr.str_dict.get(&name_id) {
            Some(n) => n.clone(),
            None => {
                return Err(FtrError::Reference);
            },
        };
        let v3 = cbd.read_int()?;
        let kind_id = int_to_id(v3)?;
        let kind = match ftr.str_dict.get(&kind_id) {
            Some(k2) => k2.clone(),
            None => {
                return Err(FtrError::Reference);
            },
        };
        register_stream(ftr, stream_id, name, kind);
        Ok(())
    } else if dir_tag == 17 {
        let len = cbd.read_array_length()?;
        if len != 3 {
            return Err(FtrError::Format);
        }
        let v1 = cbd.read_int()?;
        let gen_id = int_to_id(v1)?;
        let v2 = cbd.read_int()?;
        let name_id = int_to_id(v2)?;
        let name = match ftr.str_dict.get(&name_id) {
            Some(n) => n.clone(),
            None => {
                return Err(FtrError::Reference);
            },
        };
        let v3 = cbd.read_int()?;
        let stream_id = int_to_id(v3)?;
        if !ftr.tx_streams.contains_key(&stream_id) {
            return Err(FtrError::Reference);
        }
        register_generator(ftr, gen_id, name, stream_id);
        Ok(())
    } else {
        Err(FtrError::Format)
    }
}

/// Decode one directory chunk payload: an array header, then stream and
/// generator entries — up to the break marker for an indefinite array,
/// or `n - 1` of them for a declared length `n`.
pub(crate) fn parse_dir(ftr: &mut FTR, cbd: &mut CborDecoder) -> (r: Result<(), FtrError>)
    requires
        old(cbd).wf(),
        old(ftr).wf(),
    ensures
        final(cbd).wf(),
        final(ftr).wf(),
        final(cbd).data() == old(cbd).data(),
        same_but_registries(*final(ftr), *old(ftr)),
        ({
            let sp = sp_dir_chunk(
                old(cbd).data(),
                old(cbd).cursor(),
                dict_view(old(ftr).str_dict@),
                old(ftr).reg_view(),
            );
            match (r, sp) {
                (Ok(_), Ok(done)) => {
                    &&& final(ftr).reg_view() == done.0
                    &&& final(cbd).cursor() == done.1
                },
                (Err(e), Err(e2)) => e == e2,
                _ => false,
            }
        }),
{
    proof {
        old(cbd).lemma_wf_bounds();
    }
    let size = cbd.read_array_length()?;
    let ghost s = old(cbd).data();
    let ghost d = dict_view(old(ftr).str_dict@);
    if size < 0 {
        loop
            invariant
                cbd.wf(),
                ftr.wf(),
                old(ftr).wf(),
                cbd.data() == s,
                s == old(cbd).data(),
                d == dict_view(old(ftr).str_dict@),
                dict_view(ftr.str_dict@) == d,
                same_but_registries(*ftr, *old(ftr)),
                sp_dir_chunk(s, old(cbd).cursor(), d, old(ftr).reg_view()) == sp_dir_entries(
                    s,
                    cbd.cursor(),
                    d,
                    ftr.reg_view(),
                ),
            decreases s.len() - cbd.cursor(),
        {
            proof {
                cbd.lemma_wf_bounds();
            }
            let next = match cbd.peek() {
                Ok(v) => v,
                Err(_) => {
                    return Ok(());
                },
            };
            if next == 0xff {
                return Ok(());
            }
            let ghost icur = cbd.cursor();
            let ghost regcur = ftr.reg_view();
            match parse_dir_entry(ftr, cbd) {
                Ok(_) => {},
                Err(e) => {
                    return Err(e);
                },
            }
            proof {
                lemma_sp_dir_entry_advances(s, icur, d, regcur);
            }
        }
    } else {
        let cnt: i64 = if size <= 1 {
            0
        } else {
            size - 1
        };
        let mut k: i64 = 0;
        while k < cnt
            invariant
                cbd.wf(),
                ftr.wf(),
                old(ftr).wf(),
                cbd.data() == s,
                s == old(cbd).data(),
                d == dict_view(old(ftr).str_dict@),
                dict_view(ftr.str_dict@) == d,
                0 <= k <= cnt,
                same_but_registries(*ftr, *old(ftr)),
                sp_dir_chunk(s, old(cbd).cursor(), d, old(ftr).reg_view()) == sp_dir_n(
                    s,
                    cbd.cursor(),
                    (cnt - k) as nat,
                    d,
                    ftr.reg_view(),
                ),
            decreases cnt - k,
        {
            match parse_dir_entry(ftr, cbd) {
                Ok(_) => {},
                Err(e) => {
                    return Err(e);
                },
            }
            k = k + 1;
        }
        Ok(())
    }
}

/// The buffer that lz4 block decompression fills from a compressed
/// block, given the buffer's size, or nothing when decompression fails
/// (the size too small for the stream included).
pub uninterp spec fn lz4_block_decompressed(src: Seq<u8>, size: nat) -> Option<Seq<u8>>;

/// Relies on lz4_flex::decompress_into: whether a compressed block
/// decompresses into a buffer of the declared size, and what the buffer
/// then holds, depend on the compressed bytes and the size alone.
#[verifier::external_body]
fn decompress_block(src: &Vec<u8>, size: usize) -> (r: Option<Vec<u8>>)
    ensures
        match r {
            Some(v) => v@.len() == size && lz4_block_decompressed(src@, size as nat) == Some(v@),
            None => lz4_block_decompressed(src@, size as nat) is None,
        },
{
    let mut buf = vec![0u8; size];
    match lz4_flex::decompress_into(src.as_slice(), &mut buf) {
        Ok(_) => Some(buf),
        Err(_) => None,
    }
}

/// The model a parse starts from: no unit, no timestamp, empty tables.
pub open spec fn initial_model() -> ModelView {
    ModelView {
        ts: Timescale::NoUnit,
        max: 0,
        dict: Map::empty(),
        reg: RegView {
            streams: Map::empty(),
            stream_order: Seq::empty(),
            gens: Map::empty(),
            gen_order: Seq::empty(),
        },
        rels: Seq::empty(),
    }
}

/// What reading a compressed chunk payload yields: a two-element array
/// of the declared uncompressed size and the compressed bytes, handed to
/// the decompressor.
pub open spec fn sp_comp_payload(s: Seq<u8>, i: int) -> Result<(Seq<u8>, int), FtrError> {
    match sp_read_item(s, i, 4) {
        Err(e) => Err(e),
        Ok((len, i1)) => if len != 2 {
            Err(FtrError::Format)
        } else {
            match sp_read_int(s, i1) {
                Err(e) => Err(e),
                Ok((size, i2)) => if !(0 <= size <= usize::MAX) {
                    Err(FtrError::Format)
                } else {
                    match sp_read_bstr(s, i2) {
                        Err(e) => Err(e),
                        Ok((bytes, i3)) => match lz4_block_decompressed(bytes, size as nat) {
                            Option::None => Err(FtrError::Decompress),
                            Option::Some(p) => Ok((p, i3)),
                        },
                    }
                },
            }
        },
    }
}

/// What the info chunk payload sets: a two-element array holding the
/// signed time-unit exponent and a tag-1-prefixed creation time, of
/// which only the unit is kept.
pub open spec fn sp_info_payload(p: Seq<u8>, m: ModelView) -> Result<ModelView, FtrError> {
    match sp_read_item(p, 0, 4) {
        Err(e) => Err(e),
        Ok((len, j1)) => if len != 2 {
            Err(FtrError::Format)
        } else {
            match sp_read_int(p, j1) {
                Err(e) => Err(e),
                Ok((exp, j2)) => match sp_read_item(p, j2, 6) {
                    Err(e) => Err(e),
                    Ok((etag, j3)) => if etag != 1 {
                        Err(FtrError::Format)
                    } else {
                        match sp_read_int(p, j3) {
                            Err(e) => Err(e),
                            Ok(_) => Ok(ModelView { ts: spec_timescale(exp), ..m }),
                        }
                    },
                },
            }
        },
    }
}

/// What an info chunk does to the model.
pub open spec fn sp_chunk_info(s: Seq<u8>, i: int, m: ModelView) -> Result<(ModelView, int), FtrError> {
    match sp_read_bstr(s, i) {
        Err(e) => Err(e),
        Ok((p, i2)) => match sp_info_payload(p, m) {
            Err(e) => Err(e),
            Ok(m2) => Ok((m2, i2)),
        },
    }
}

/// What a dictionary chunk (raw or compressed) does to the model.
pub open spec fn sp_chunk_dict(s: Seq<u8>, i: int, m: ModelView, compressed: bool) -> Result<
    (ModelView, int),
    FtrError,
> {
    let pr = if compressed {
        sp_comp_payload(s, i)
    } else {
        sp_read_bstr(s, i)
    };
    match pr {
        Err(e) => Err(e),
        Ok((p, i2)) => match sp_dict_chunk(p, 0, m.dict) {
            Err(e) => Err(e),
            Ok((d2, _)) => Ok((ModelView { dict: d2, ..m }, i2)),
        },
    }
}

/// What a directory chunk (raw or compressed) does to the model.
pub open spec fn sp_chunk_dir(s: Seq<u8>, i: int, m: ModelView, compressed: bool) -> Result<
    (ModelView, int),
    FtrError,
> {
    let pr = if compressed {
        sp_comp_payload(s, i)
    } else {
        sp_read_bstr(s, i)
    };
    match pr {
        Err(e) => Err(e),
        Ok((p, i2)) => match sp_dir_chunk(p, 0, m.dict, m.reg) {
            Err(e) => Err(e),
            Ok((reg2, _)) => Ok((ModelView { reg: reg2, ..m }, i2)),
        },
    }
}

/// What a relationship chunk (raw or compressed) does to the model.
pub open spec fn sp_chunk_rel(s: Seq<u8>, i: int, m: ModelView, compressed: bool) -> Result<
    (ModelView, int),
    FtrError,
> {
    let pr = if compressed {
        sp_comp_payload(s, i)
    } else {
        sp_read_bstr(s, i)
    };
    match pr {
        Err(e) => Err(e),
        Ok((p, i2)) => match sp_rel_chunk(p, 0, m.dict, m.reg, m.rels) {
            Err(e) => Err(e),
            Ok((rels2, _)) => Ok((ModelView { rels: rels2, ..m }, i2)),
        },
    }
}

/// Recording where a stream's transaction block lives in the source, and
/// whether the stream becomes resident now.
pub open spec fn sp_record_block(
    reg: RegView,
    sid: usize,
    off: u64,
    compressed: bool,
    mark_loaded: bool,
) -> RegView {
    let st = reg.streams[sid];
    RegView {
        streams: reg.streams.insert(
            sid,
            StreamView {
                blocks: st.blocks.push((off, compressed)),
                loaded: st.loaded || mark_loaded,
                ..st
            },
        ),
        ..reg
    }
}

/// What a transaction-block chunk does to the model: its header names
/// the owning stream and declares the block's time span; the block's
/// position is always recorded on the stream and the maximum timestamp
/// raised, and the payload is decoded now only when the source is not
/// reopenable, else skipped for a later load.
pub open spec fn sp_chunk_tx(
    s: Seq<u8>,
    i: int,
    m: ModelView,
    compressed: bool,
    file_backed: bool,
) -> Result<(ModelView, int), FtrError> {
    match sp_read_item(s, i, 4) {
        Err(e) => Err(e),
        Ok((len, i1)) => if len != (if compressed {
            5int
        } else {
            4int
        }) {
            Err(FtrError::Format)
        } else {
            match sp_read_id(s, i1) {
                Err(e) => Err(e),
                Ok((sid, i2)) => match sp_read_int(s, i2) {
                    Err(e) => Err(e),
                    Ok((_start, i3)) => match sp_read_int(s, i3) {
                        Err(e) => Err(e),
                        Ok((end, i4)) => {
                            let max2: i64 = if end > m.max {
                                end as i64
                            } else {
                                m.max
                            };
                            if !m.reg.streams.contains_key(sid) {
                                Err(FtrError::Reference)
                            } else {
                                let m2 = ModelView {
                                    max: max2,
                                    reg: sp_record_block(
                                        m.reg,
                                        sid,
                                        i4 as u64,
                                        compressed,
                                        !file_backed,
                                    ),
                                    ..m
                                };
                                if compressed {
                                    match sp_read_int(s, i4) {
                                        Err(e) => Err(e),
                                        Ok((size, i5)) => if file_backed {
                                            match sp_skip_bstr(s, i5) {
                                                Err(e) => Err(e),
                                                Ok(i6) => Ok((m2, i6)),
                                            }
                                        } else if !(0 <= size <= usize::MAX) {
                                            Err(FtrError::Format)
                                        } else {
                                            match sp_read_bstr(s, i5) {
                                                Err(e) => Err(e),
                                                Ok((bytes, i6)) => match lz4_block_decompressed(
                                                    bytes,
                                                    size as nat,
                                                ) {
                                                    Option::None => Err(FtrError::Decompress),
                                                    Option::Some(p) => match sp_tx_block(
                                                        p,
                                                        0,
                                                        m2.dict,
                                                        m2.reg.gens.dom(),
                                                    ) {
                                                        Err(e) => Err(e),
                                                        Ok((txs, _)) => Ok(
                                                            (
                                                                ModelView {
                                                                    reg: RegView {
                                                                        gens: sp_commit_txs(
                                                                            m2.reg.gens,
                                                                            txs,
                                                                            m2.rels,
                                                                        ),
                                                                        ..m2.reg
                                                                    },
                                                                    ..m2
                                                                },
                                                                i6,
                                                            ),
                                                        ),
                                                    },
                                                },
                                            }
                                        },
                                    }
                                } else {
                                    if file_backed {
                                        match sp_skip_bstr(s, i4) {
                                            Err(e) => Err(e),
                                            Ok(i5) => Ok((m2, i5)),
                                        }
                                    } else {
                                        match sp_read_bstr(s, i4) {
                                            Err(e) => Err(e),
                                            Ok((p, i5)) => match sp_tx_block(
                                                p,
                                                0,
                                                m2.dict,
                                                m2.reg.gens.dom(),
                                            ) {
                                                Err(e) => Err(e),
                                                Ok((txs, _)) => Ok(
                                                    (
                                                        ModelView {
                                                            reg: RegView {
                                                                gens: sp_commit_txs(
                                                                    m2.reg.gens,
                                                                    txs,
                                                                    m2.rels,
                                                                ),
                                                                ..m2.reg
                                                            },
                                                            ..m2
                                                        },
                                                        i5,
                                                    ),
                                                ),
                                            },
                                        }
                                    }
                                }
                            }
                        },
                    },
                },
            }
        },
    }
}

/// What one tagged chunk does to the model: the tag picks the component;
/// a tag outside the table is fatal, since an unknown chunk's length is
/// not self-describing at this level.
pub open spec fn sp_chunk(s: Seq<u8>, i: int, m: ModelView, file_backed: bool) -> Result<
    (ModelView, int),
    FtrError,
> {
    match sp_read_item(s, i, 6) {
        Err(e) => Err(e),
        Ok((tag, i1)) => if tag == 6 {
            sp_chunk_info(s, i1, m)
        } else if tag == 8 {
            sp_chunk_dict(s, i1, m, false)
        } else if tag == 9 {
            sp_chunk_dict(s, i1, m, true)
        } else if tag == 10 {
            sp_chunk_dir(s, i1, m, false)
        } else if tag == 11 {
            sp_chunk_dir(s, i1, m, true)
        } else if tag == 12 {
            sp_chunk_tx(s, i1, m, false, file_backed)
        } else if tag == 13 {
            sp_chunk_tx(s, i1, m, true, file_backed)
        } else if tag == 14 {
            sp_chunk_rel(s, i1, m, false)
        } else if tag == 15 {
            sp_chunk_rel(s, i1, m, true)
        } else {
            Err(FtrError::Format)
        },
    }
}

/// What the run of chunks up to the break marker does to the model; a
/// source that ends without the marker is truncated.
pub open spec fn sp_chunks(s: Seq<u8>, i: int, m: ModelView, file_backed: bool) -> Result<
    (ModelView, int),
    FtrError,
>
    decreases s.len() - i,
{
    if !(0 <= i < s.len()) {
        Err(FtrError::Truncated)
    } else if s[i] == 0xff {
        Ok((m, i))
    } else {
        match sp_chunk(s, i, m, file_backed) {
            Err(e) => Err(e),
            Ok((m2, i2)) => if i < i2 <= s.len() {
                sp_chunks(s, i2, m2, file_backed)
            } else {
                Err(FtrError::Format)
            },
        }
    }
}

/// Whether the envelope at position `i` is rejected: no tag 55799, or
/// no indefinite-length top array after it.
pub open spec fn sp_envelope_rejected(s: Seq<u8>, i: int) -> bool {
    match sp_read_item(s, i, 6) {
        Err(_) => true,
        Ok((tag, i1)) => tag != 55799 || (match sp_read_item(s, i1, 4) {
            Err(_) => true,
            Ok((len, _)) => len != -1,
        }),
    }
}

/// What parsing a whole container from position `i` yields: the
/// self-describing tag 55799, an indefinite-length top array, then the
/// chunks up to the break marker.
pub open spec fn sp_parse(s: Seq<u8>, i: int, m: ModelView, file_backed: bool) -> Result<
    (ModelView, int),
    FtrError,
> {
    match sp_read_item(s, i, 6) {
        Err(e) => Err(e),
        Ok((tag, i1)) => if tag != 55799 {
            Err(FtrError::Format)
        } else {
            match sp_read_item(s, i1, 4) {
                Err(e) => Err(e),
                Ok((len, i2)) => if len != -1 {
                    Err(FtrError::Format)
                } else {
                    sp_chunks(s, i2, m, file_backed)
                },
            }
        },
    }
}

/// Read and decompress one compressed chunk payload: a two-element
/// array of the declared uncompressed size and the compressed bytes.
fn read_compressed_payload(cbd: &mut CborDecoder) -> (r: Result<Vec<u8>, FtrError>)
    requires
        old(cbd).wf(),
    ensures
        final(cbd).wf(),
        final(cbd).data() == old(cbd).data(),
        ({
            let sp = sp_comp_payload(old(cbd).data(), old(cbd).cursor());
            match (r, sp) {
                (Ok(p), Ok(done)) => {
                    &&& p@ == done.0
                    &&& final(cbd).cursor() == done.1
                    &&& old(cbd).cursor() < done.1 <= old(cbd).data().len()
                },
                (Err(e), Err(e2)) => e == e2,
                _ => false,
            }
        }),
{
    proof {
        old(cbd).lemma_wf_bounds();
    }
    let len = cbd.read_array_length()?;
    if len != 2 {
        return Err(FtrError::Format);
    }
    let szv = cbd.read_int()?;
    let size = int_to_id(szv)?;
    let bytes = cbd.read_byte_string()?;
    match decompress_block(&bytes, size) {
        Some(p) => Ok(p),
        None => Err(FtrError::Decompress),
    }
}

/// Decode the info chunk: its byte-string payload holds the time-unit
/// exponent and a tag-1 creation time; only the unit is kept.
fn chunk_info(ftr: &mut FTR, cbd: &mut CborDecoder) -> (r: Result<(), FtrError>)
    requires
        old(cbd).wf(),
        old(ftr).wf(),
    ensures
        final(cbd).wf(),
        final(ftr).wf(),
        final(cbd).data() == old(cbd).data(),
        final(ftr).file_backed == old(ftr).file_backed,
        ({
            let sp = sp_chunk_info(old(cbd).data(), old(cbd).cursor(), old(ftr).model_view());
            match (r, sp) {
                (Ok(_), Ok(done)) => {
                    &&& final(ftr).model_view() == done.0
                    &&& final(cbd).cursor() == done.1
                    &&& old(cbd).cursor() < done.1 <= old(cbd).data().len()
                },
                (Err(e), Err(e2)) => e == e2,
                _ => false,
            }
        }),
{
    proof {
        old(cbd).lemma_wf_bounds();
    }
    let ghost m = old(ftr).model_view();
    let payload = cbd.read_byte_string()?;
    let mut cbd2 = CborDecoder::new(payload);
    let size = cbd2.read_array_length()?;
    if size != 2 {
        return Err(FtrError::Format);
    }
    let exp = cbd2.read_int()?;
    ftr.time_scale = Timescale::get_timescale(exp);
    let etag = cbd2.read_tag()?;
    if etag != 1 {
        return Err(FtrError::Format);
    }
    let _creation = cbd2.read_int()?;
    proof {
        assert(ftr.model_view() =~~= (ModelView { ts: spec_timescale(exp as int), ..m }));
    }
    Ok(())
}

/// Decode one dictionary chunk, raw or compressed.
fn chunk_dict(ftr: &mut FTR, cbd: &mut CborDecoder, compressed: bool) -> (r: Result<(), FtrError>)
    requires
        old(cbd).wf(),
        old(ftr).wf(),
    ensures
        final(cbd).wf(),
        final(ftr).wf(),
        final(cbd).data() == old(cbd).data(),
        final(ftr).file_backed == old(ftr).file_backed,
        ({
            let sp = sp_chunk_dict(
                old(cbd).data(),
                old(cbd).cursor(),
                old(ftr).model_view(),
                compressed,
            );
            match (r, sp) {
                (Ok(_), Ok(done)) => {
                    &&& final(ftr).model_view() == done.0
                    &&& final(cbd).cursor() == done.1
                    &&& old(cbd).cursor() < done.1 <= old(cbd).data().len()
                },
                (Err(e), Err(e2)) => e == e2,
                _ => false,
            }
        }),
{
    proof {
        old(cbd).lemma_wf_bounds();
    }
    let ghost m = old(ftr).model_view();
    let payload = if compressed {
        read_compressed_payload(cbd)?
    } else {
        cbd.read_byte_string()?
    };
    let mut inner = CborDecoder::new(payload);
    parse_dict(ftr, &mut inner)?;
    proof {
        assert(ftr.model_view() =~~= (ModelView { dict: dict_view(ftr.str_dict@), ..m }));
    }
    Ok(())
}

/// Decode one directory chunk, raw or compressed.
fn chunk_dir(ftr: &mut FTR, cbd: &mut CborDecoder, compressed: bool) -> (r: Result<(), FtrError>)
    requires
        old(cbd).wf(),
        old(ftr).wf(),
    ensures
        final(cbd).wf(),
        final(ftr).wf(),
        final(cbd).data() == old(cbd).data(),
        final(ftr).file_backed == old(ftr).file_backed,
        ({
            let sp = sp_chunk_dir(
                old(cbd).data(),
                old(cbd).cursor(),
                old(ftr).model_view(),
                compressed,
            );
            match (r, sp) {
                (Ok(_), Ok(done)) => {
                    &&& final(ftr).model_view() == done.0
                    &&& final(cbd).cursor() == done.1
                    &&& old(cbd).cursor() < done.1 <= old(cbd).data().len()
                },
                (Err(e), Err(e2)) => e == e2,
                _ => false,
            }
        }),
{
    proof {
        old(cbd).lemma_wf_bounds();
    }
    let ghost m = old(ftr).model_view();
    let payload = if compressed {
        read_compressed_payload(cbd)?
    } else {
        cbd.read_byte_string()?
    };
    let mut inner = CborDecoder::new(payload);
    parse_dir(ftr, &mut inner)?;
    proof {
        assert(ftr.model_view() =~~= (ModelView { reg: ftr.reg_view(), ..m }));
    }
    Ok(())
}

/// Decode one relationship chunk, raw or compressed.
fn chunk_rel(ftr: &mut FTR, cbd: &mut CborDecoder, compressed: bool) -> (r: Result<(), FtrError>)
    requires
        old(cbd).wf(),
        old(ftr).wf(),
    ensures
        final(cbd).wf(),
        final(ftr).wf(),
        final(cbd).data() == old(cbd).data(),
        final(ftr).file_backed == old(ftr).file_backed,
        ({
            let sp = sp_chunk_rel(
                old(cbd).data(),
                old(cbd).cursor(),
                old(ftr).model_view(),
                compressed,
            );
            match (r, sp) {
                (Ok(_), Ok(done)) => {
                    &&& final(ftr).model_view() == done.0
                    &&& final(cbd).cursor() == done.1
                    &&& old(cbd).cursor() < done.1 <= old(cbd).data().len()
                },
                (Err(e), Err(e2)) => e == e2,
                _ => false,
            }
        }),
{
    proof {
        old(cbd).lemma_wf_bounds();
    }
    let ghost m = old(ftr).model_view();
    let payload = if compressed {
        read_compressed_payload(cbd)?
    } else {
        cbd.read_byte_string()?
    };
    let mut inner = CborDecoder::new(payload);
    parse_rel(ftr, &mut inner)?;
    proof {
        assert(ftr.model_view() =~~= (ModelView { rels: ftr.rels_view(), ..m }));
    }
    Ok(())
}

/// Record where a transaction block of the stream lives in the source,
/// and whether the stream becomes resident now.
fn record_block(ftr: &mut FTR, stream_id: usize, offset: u64, compressed: bool, mark_loaded: bool)
    requires
        old(ftr).wf(),
        old(ftr).tx_streams@.contains_key(stream_id),
    ensures
        final(ftr).wf(),
        same_but_registries(*final(ftr), *old(ftr)),
        final(ftr).str_dict@ == old(ftr).str_dict@,
        final(ftr).reg_view() == sp_record_block(
            old(ftr).reg_view(),
            stream_id,
            offset,
            compressed,
            mark_loaded,
        ),
{
    let ghost reg0 = ftr.reg_view();
    match ftr.tx_streams.remove(&stream_id) {
        Some(mut st) => {
            st.tx_block_ids.push((offset, compressed));
            if mark_loaded {
                st.transactions_loaded = true;
            }
            ftr.tx_streams.insert(stream_id, st);
        },
        None => {
            proof {
                assert(false);
            }
        },
    }
    proof {
        let done = sp_record_block(reg0, stream_id, offset, compressed, mark_loaded);
        assert(ftr.reg_view().streams =~~= done.streams);
        assert(ftr.reg_view() =~~= done);
        let o = *old(ftr);
        assert forall|j: int| 0 <= j < ftr.stream_ids@.len() implies ftr.tx_streams@.contains_key(
            #[trigger] ftr.stream_ids@[j],
        ) by {
            assert(o.tx_streams@.contains_key(o.stream_ids@[j]));
        }
        assert forall|k2: usize| #[trigger]
            ftr.tx_streams@.contains_key(k2) implies ftr.stream_ids@.contains(k2) by {
            assert(o.tx_streams@.contains_key(k2));
        }
        assert forall|k2: usize|
            #![trigger ftr.tx_streams@[k2]]
            ftr.tx_streams@.contains_key(k2) implies (forall|j: int|
            0 <= j < ftr.tx_streams@[k2].generators@.len() ==> ftr.tx_generators@.contains_key(
                #[trigger] ftr.tx_streams@[k2].generators@[j],
            )) by {
            assert(o.tx_streams@.contains_key(k2));
            if k2 == stream_id {
                assert(ftr.tx_streams@[k2].generators@ == o.tx_streams@[k2].generators@);
            } else {
                assert(ftr.tx_streams@[k2] == o.tx_streams@[k2]);
            }
        }
    }
}

/// Decode one transaction-block chunk, raw or compressed: record the
/// block's position on its stream, raise the maximum timestamp from the
/// declared end time, then decode the payload now or skip it for a
/// later load, depending on whether the source can be reopened.
#[verifier::rlimit(100)]
#[verifier::spinoff_prover]
fn chunk_tx(ftr: &mut FTR, cbd: &mut CborDecoder, compressed: bool) -> (r: Result<(), FtrError>)
    requires
        old(cbd).wf(),
        old(ftr).wf(),
    ensures
        final(cbd).wf(),
        final(ftr).wf(),
        final(cbd).data() == old(cbd).data(),
        final(ftr).file_backed == old(ftr).file_backed,
        ({
            let sp = sp_chunk_tx(
                old(cbd).data(),
                old(cbd).cursor(),
                old(ftr).model_view(),
                compressed,
                old(ftr).file_backed,
            );
            match (r, sp) {
                (Ok(_), Ok(done)) => {
                    &&& final(ftr).model_view() == done.0
                    &&& final(cbd).cursor() == done.1
                    &&& old(cbd).cursor() < done.1 <= old(cbd).data().len()
                },
                (Err(e), Err(e2)) => e == e2,
                _ => false,
            }
        }),
{
    proof {
        old(cbd).lemma_wf_bounds();
    }
    let ghost m = old(ftr).model_view();
    let len = cbd.read_array_length()?;
    if compressed {
        if len != 5 {
            return Err(FtrError::Format);
        }
    } else {
        if len != 4 {
            return Err(FtrError::Format);
        }
    }
    let v1 = cbd.read_int()?;
    let stream_id = int_to_id(v1)?;
    let _start = cbd.read_int()?;
    let end = cbd.read_int()?;
    if end > ftr.max_timestamp {
        ftr.max_timestamp = end;
    }
    if !ftr.tx_streams.contains_key(&stream_id) {
        return Err(FtrError::Reference);
    }
    let off = cbd.position();
    let eager = !ftr.file_backed;
    record_block(ftr, stream_id, off, compressed, eager);
    let ghost m2 = ftr.model_view();
    proof {
        assert(m2 =~~= (ModelView {
            max: ftr.max_timestamp,
            reg: sp_record_block(m.reg, stream_id, off, compressed, eager),
            ..m
        }));
    }
    if compressed {
        let szv = cbd.read_int()?;
        if eager {
            let size = int_to_id(szv)?;
            let bytes = cbd.read_byte_string()?;
            let payload = match decompress_block(&bytes, size) {
                Some(p) => p,
                None => {
                    return Err(FtrError::Decompress);
                },
            };
            let mut inner = CborDecoder::new(payload);
            proof {
                assert(m2.reg.gens.dom() =~= ftr.tx_generators@.dom());
            }
            parse_tx_block(ftr, &mut inner)?;
            proof {
                assert(ftr.model_view() =~~= (ModelView {
                    reg: RegView { gens: ftr.reg_view().gens, ..m2.reg },
                    ..m2
                }));
            }
        } else {
            cbd.skip_byte_string()?;
        }
    } else {
        if eager {
            let payload = cbd.read_byte_string()?;
            let mut inner = CborDecoder::new(payload);
            proof {
                assert(m2.reg.gens.dom() =~= ftr.tx_generators@.dom());
            }
            parse_tx_block(ftr, &mut inner)?;
            proof {
                assert(ftr.model_view() =~~= (ModelView {
                    reg: RegView { gens: ftr.reg_view().gens, ..m2.reg },
                    ..m2
                }));
            }
        } else {
            cbd.skip_byte_string()?;
        }
    }
    Ok(())
}

/// Decode the whole container: validate the envelope (tag 55799 and an
/// indefinite-length top array), then read and dispatch tagged chunks
/// until the break marker.
pub(crate) fn parse_input(ftr: &mut FTR, cbd: &mut CborDecoder) -> (r: Result<(), FtrError>)
    requires
        old(cbd).wf(),
        old(ftr).wf(),
    ensures
        final(cbd).wf(),
        final(ftr).wf(),
        final(cbd).data() == old(cbd).data(),
        final(ftr).file_backed == old(ftr).file_backed,
        sp_envelope_rejected(old(cbd).data(), old(cbd).cursor()) ==> r is Err && *final(ftr)
            == *old(ftr),
        ({
            let sp = sp_parse(
                old(cbd).data(),
                old(cbd).cursor(),
                old(ftr).model_view(),
                old(ftr).file_backed,
            );
            match (r, sp) {
                (Ok(_), Ok(done)) => {
                    &&& final(ftr).model_view() == done.0
                    &&& final(cbd).cursor() == done.1
                },
                (Err(e), Err(e2)) => e == e2,
                _ => false,
            }
        }),
{
    proof {
        old(cbd).lemma_wf_bounds();
    }
    let ghost s = old(cbd).data();
    let ghost fb = old(ftr).file_backed;
    let tag = cbd.read_tag()?;
    if tag != 55799 {
        return Err(FtrError::Format);
    }
    let array_length = cbd.read_array_length()?;
    if array_length != -1 {
        return Err(FtrError::Format);
    }
    loop
        invariant
            cbd.wf(),
            ftr.wf(),
            old(ftr).wf(),
            cbd.data() == s,
            s == old(cbd).data(),
            ftr.file_backed == fb,
            fb == old(ftr).file_backed,
            !sp_envelope_rejected(s, old(cbd).cursor()),
            sp_parse(s, old(cbd).cursor(), old(ftr).model_view(), fb) == sp_chunks(
                s,
                cbd.cursor(),
                ftr.model_view(),
                fb,
            ),
        decreases s.len() - cbd.cursor(),
    {
        proof {
            cbd.lemma_wf_bounds();
        }
        let next = match cbd.peek() {
            Ok(v) => v,
            Err(e) => {
                return Err(e);
            },
        };
        if next == 0xff {
            return Ok(());
        }
        let chunk_tag = cbd.read_tag()?;
        if chunk_tag == 6 {
            chunk_info(ftr, cbd)?;
        } else if chunk_tag == 8 {
            chunk_dict(ftr, cbd, false)?;
        } else if chunk_tag == 9 {
            chunk_dict(ftr, cbd, true)?;
        } else if chunk_tag == 10 {
            chunk_dir(ftr, cbd, false)?;
        } else if chunk_tag == 11 {
            chunk_dir(ftr, cbd, true)?;
        } else if chunk_tag == 12 {
            chunk_tx(ftr, cbd, false)?;
        } else if chunk_tag == 13 {
            chunk_tx(ftr, cbd, true)?;
        } else if chunk_tag == 14 {
            chunk_rel(ftr, cbd, false)?;
        } else if chunk_tag == 15 {
            chunk_rel(ftr, cbd, true)?;
        } else {
            return Err(FtrError::Format);
        }
    }
}

/// Reinterpret a signed decoded integer as unsigned, keeping its bits.
fn to_unsigned64(v: i64) -> (r: u64)
    ensures
        r == as_unsigned64(v as int),
{
    if v >= 0 {
        v as u64
    } else {
        ((v - i64::MIN) as u64) + 0x8000000000000000
    }
}

/// Decode one attribute: its name id, its type code, and the value the
/// code dictates; the name is resolved against the dictionary last, as
/// the attribute is assembled.
fn parse_attribute(ftr: &FTR, cbd: &mut CborDecoder, kind: AttributeType) -> (r: Result<
    Attribute,
    FtrError,
>)
    requires
        old(cbd).wf(),
    ensures
        final(cbd).wf(),
        final(cbd).data() == old(cbd).data(),
        ({
            let sp = sp_attr(old(cbd).data(), old(cbd).cursor(), dict_view(ftr.str_dict@), kind);
            match (r, sp) {
                (Ok(att), Ok(done)) => att@ == done.0 && final(cbd).cursor() == done.1,
                (Err(e), Err(e2)) => e == e2,
                _ => false,
            }
        }),
{
    proof {
        old(cbd).lemma_wf_bounds();
    }
    let v1 = cbd.read_int()?;
    let name_id = int_to_id(v1)?;
    let v2 = cbd.read_int()?;
    let data_type: DataType = if v2 == 0 {
        let b = cbd.read_boolean()?;
        DataType::Boolean(b)
    } else if v2 == 1 || v2 == 5 || v2 == 6 || v2 == 10 {
        let v3 = cbd.read_int()?;
        let id = int_to_id(v3)?;
        let label = match ftr.str_dict.get(&id) {
            Some(s2) => s2.clone(),
            None => {
                return Err(FtrError::Reference);
            },
        };
        if v2 == 1 {
            DataType::Enumeration(label)
        } else if v2 == 5 {
            DataType::BitVector(label)
        } else if v2 == 6 {
            DataType::LogicVector(label)
        } else {
            DataType::String(label)
        }
    } else if v2 == 2 {
        let x = cbd.read_int()?;
        DataType::Integer(x)
    } else if v2 == 3 || v2 == 9 || v2 == 11 {
        let x = cbd.read_int()?;
        let u = to_unsigned64(x);
        if v2 == 3 {
            DataType::Unsigned(u)
        } else if v2 == 9 {
            DataType::Pointer(u)
        } else {
            DataType::Time(u)
        }
    } else if v2 == 4 || v2 == 7 || v2 == 8 {
        let bits = cbd.read_float()?;
        if v2 == 4 {
            DataType::FloatingPointNumber(bits)
        } else if v2 == 7 {
            DataType::FixedPointInteger(bits)
        } else {
            DataType::UnsignedFixedPointInteger(bits)
        }
    } else {
        DataType::Error
    };
    let name = match ftr.str_dict.get(&name_id) {
        Some(n) => n.clone(),
        None => {
            return Err(FtrError::Reference);
        },
    };
    Ok(Attribute { kind, name, data_type })
}

/// Collect, from the relations known so far, those pointing out of and
/// into the given transaction: one pass over the list; a relation whose
/// source and sink are both this transaction lands in both lists.
fn backfill_relations(ftr: &FTR, tx_id: usize) -> (r: (Vec<TxRelation>, Vec<TxRelation>))
    ensures
        r.0@.map_values(|x: TxRelation| x@) == sp_inc_rels(ftr.rels_view(), tx_id),
        r.1@.map_values(|x: TxRelation| x@) == sp_out_rels(ftr.rels_view(), tx_id),
{
    let ghost rv = ftr.rels_view();
    let mut inc: Vec<TxRelation> = Vec::new();
    let mut out: Vec<TxRelation> = Vec::new();
    let n = ftr.tx_relations.len();
    proof {
        assert(rv.take(0) =~= Seq::<RelView>::empty());
        assert(inc@.map_values(|x: TxRelation| x@) =~= sp_inc_rels(rv.take(0), tx_id));
        assert(out@.map_values(|x: TxRelation| x@) =~= sp_out_rels(rv.take(0), tx_id));
    }
    let mut k: usize = 0;
    while k < n
        invariant
            0 <= k <= n == ftr.tx_relations@.len(),
            rv == ftr.rels_view(),
            inc@.map_values(|x: TxRelation| x@) == sp_inc_rels(rv.take(k as int), tx_id),
            out@.map_values(|x: TxRelation| x@) == sp_out_rels(rv.take(k as int), tx_id),
        decreases n - k,
    {
        let rel = &ftr.tx_relations[k];
        proof {
            assert(rv[k as int] == ftr.tx_relations@[k as int]@);
            assert(rv.take(k + 1) =~= rv.take(k as int).push(rv[k as int]));
        }
        let ghost inc0 = inc@.map_values(|x: TxRelation| x@);
        let ghost out0 = out@.map_values(|x: TxRelation| x@);
        if rel.source_tx_id == tx_id {
            out.push(rel.clone());
            proof {
                assert(out@.map_values(|x: TxRelation| x@) =~= out0.push(rv[k as int]));
            }
        }
        if rel.sink_tx_id == tx_id {
            inc.push(rel.clone());
            proof {
                assert(inc@.map_values(|x: TxRelation| x@) =~= inc0.push(rv[k as int]));
            }
        }
        k = k + 1;
    }
    proof {
        assert(rv.take(n as int) =~= rv);
    }
    (inc, out)
}

/// Decode one transaction entry and commit it: its tag-prefixed items
/// are accumulated into one event and a run of attributes; the finished
/// transaction, with its relation lists computed from the relations
/// known now, is appended to the generator its event names.
#[verifier::rlimit(100)]
#[verifier::spinoff_prover]
fn parse_tx_entry(ftr: &mut FTR, cbd: &mut CborDecoder) -> (r: Result<(), FtrError>)
    requires
        old(cbd).wf(),
        old(ftr).wf(),
    ensures
        final(cbd).wf(),
        final(ftr).wf(),
        final(cbd).data() == old(cbd).data(),
        same_but_transactions(*final(ftr), *old(ftr)),
        final(ftr).tx_generators@.dom() == old(ftr).tx_generators@.dom(),
        ({
            let sp = sp_tx(old(cbd).data(), old(cbd).cursor(), dict_view(old(ftr).str_dict@));
            match r {
                Ok(_) => sp matches Ok(done) && {
                    &&& old(ftr).tx_generators@.dom().contains(done.0.0.gen_id)
                    &&& final(ftr).reg_view().gens == sp_commit_one(
                        old(ftr).reg_view().gens,
                        done.0.0,
                        done.0.1,
                        old(ftr).rels_view(),
                    )
                    &&& final(cbd).cursor() == done.1
                    &&& old(cbd).cursor() < done.1 <= old(cbd).data().len()
                },
                Err(e) => match sp {
                    Err(e2) => e == e2 && *final(ftr) == *old(ftr),
                    Ok(done) => e == FtrError::Reference && !old(ftr).tx_generators@.dom().contains(
                        done.0.0.gen_id,
                    ) && *final(ftr) == *old(ftr),
                },
            }
        }),
{
    proof {
        old(cbd).lemma_wf_bounds();
    }
    let ghost s = old(cbd).data();
    let ghost i0 = old(cbd).cursor();
    let ghost d = dict_view(old(ftr).str_dict@);
    let arr_len = cbd.read_array_length()?;
    let cnt: i64 = if arr_len <= 0 {
        0
    } else {
        arr_len
    };
    let ghost i1 = cbd.cursor();
    let mut event = Event::new();
    let mut attributes: Vec<Attribute> = Vec::new();
    proof {
        assert(attributes@.map_values(|a: Attribute| a@) =~= Seq::<AttrView>::empty());
    }
    let mut k: i64 = 0;
    while k < cnt
        invariant
            cbd.wf(),
            ftr.wf(),
            cbd.data() == s,
            s == old(cbd).data(),
            i0 == old(cbd).cursor(),
            d == dict_view(ftr.str_dict@),
            0 <= k <= cnt,
            i0 < i1 <= cbd.cursor() <= s.len(),
            *ftr == *old(ftr),
            sp_tx(s, i0, d) == sp_tx_items(
                s,
                cbd.cursor(),
                (cnt - k) as nat,
                d,
                event,
                attributes@.map_values(|a: Attribute| a@),
            ),
        decreases cnt - k,
    {
        proof {
            cbd.lemma_wf_bounds();
        }
        let tag = cbd.read_tag()?;
        if tag == 6 {
            let event_len = cbd.read_array_length()?;
            if event_len != 4 {
                return Err(FtrError::Format);
            }
            let t1 = cbd.read_int()?;
            let tx_id = int_to_id(t1)?;
            let t2 = cbd.read_int()?;
            let gen_id = int_to_id(t2)?;
            let st = cbd.read_int()?;
            let en = cbd.read_int()?;
            event = Event { tx_id, gen_id, start_time: st, end_time: en };
        } else if tag == 7 || tag == 8 || tag == 9 {
            let len = cbd.read_array_length()?;
            if len != 3 {
                return Err(FtrError::Format);
            }
            let kind = if tag == 7 {
                AttributeType::BEGIN
            } else if tag == 8 {
                AttributeType::RECORD
            } else {
                AttributeType::END
            };
            let ghost attrs0 = attributes@.map_values(|a: Attribute| a@);
            let att = parse_attribute(ftr, cbd, kind)?;
            let ghost av = att@;
            attributes.push(att);
            proof {
                assert(attributes@.map_values(|a: Attribute| a@) =~= attrs0.push(av));
            }
        } else {
            return Err(FtrError::Format);
        }
        k = k + 1;
    }
    let gen_id = event.gen_id;
    if !ftr.tx_generators.contains_key(&gen_id) {
        return Err(FtrError::Reference);
    }
    let (inc, out) = backfill_relations(ftr, event.tx_id);
    let ghost ev = event;
    let ghost attrs = attributes@.map_values(|a: Attribute| a@);
    let tx = Transaction { event, attributes, inc_relations: inc, out_relations: out };
    proof {
        assert(tx@ == sp_tx_view(ev, attrs, ftr.rels_view()));
    }
    match ftr.tx_generators.remove(&gen_id) {
        Some(mut g) => {
            let ghost gv = g@;
            g.transactions.push(tx);
            proof {
                assert(g@.txs =~= gv.txs.push(sp_tx_view(ev, attrs, old(ftr).rels_view())));
            }
            ftr.tx_generators.insert(gen_id, g);
        },
        None => {
            proof {
                assert(false);
            }
        },
    }
    proof {
        assert(ftr.reg_view().gens =~~= sp_commit_one(
            old(ftr).reg_view().gens,
            ev,
            attrs,
            old(ftr).rels_view(),
        ));
        assert(ftr.tx_generators@.dom() =~= old(ftr).tx_generators@.dom());
    }
    Ok(())
}

/// Decode one transaction-block payload into the model: the payload must
/// open as an indefinite array; each entry up to the break marker is one
/// transaction, committed to its generator as it is decoded.
pub(crate) fn parse_tx_block(ftr: &mut FTR, cbd: &mut CborDecoder) -> (r: Result<(), FtrError>)
    requires
        old(cbd).wf(),
        old(ftr).wf(),
    ensures
        final(cbd).wf(),
        final(ftr).wf(),
        final(cbd).data() == old(cbd).data(),
        same_but_transactions(*final(ftr), *old(ftr)),
        final(ftr).tx_generators@.dom() == old(ftr).tx_generators@.dom(),
        (match sp_read_item(old(cbd).data(), old(cbd).cursor(), 4) {
            Err(_) => true,
            Ok(h) => h.0 != -1,
        }) ==> r is Err && *final(ftr) == *old(ftr),
        ({
            let sp = sp_tx_block(
                old(cbd).data(),
                old(cbd).cursor(),
                dict_view(old(ftr).str_dict@),
                old(ftr).tx_generators@.dom(),
            );
            match (r, sp) {
                (Ok(_), Ok(done)) => {
                    &&& final(ftr).reg_view().gens == sp_commit_txs(
                        old(ftr).reg_view().gens,
                        done.0,
                        old(ftr).rels_view(),
                    )
                    &&& final(cbd).cursor() == done.1
                },
                (Err(e), Err(e2)) => e == e2,
                _ => false,
            }
        }),
{
    proof {
        old(cbd).lemma_wf_bounds();
    }
    let size = cbd.read_array_length()?;
    if size != -1 {
        return Err(FtrError::Format);
    }
    let ghost s = old(cbd).data();
    let ghost d = dict_view(old(ftr).str_dict@);
    let ghost gdom = old(ftr).tx_generators@.dom();
    let ghost rels = old(ftr).rels_view();
    let ghost decoded: Seq<(Event, Seq<AttrView>)> = Seq::empty();
    let ghost mut acc = decoded;
    proof {
        assert(sp_commit_txs(old(ftr).reg_view().gens, acc, rels) == old(ftr).reg_view().gens);
    }
    loop
        invariant
            cbd.wf(),
            ftr.wf(),
            old(ftr).wf(),
            cbd.data() == s,
            s == old(cbd).data(),
            d == dict_view(old(ftr).str_dict@),
            dict_view(ftr.str_dict@) == d,
            gdom == old(ftr).tx_generators@.dom(),
            ftr.tx_generators@.dom() == gdom,
            rels == old(ftr).rels_view(),
            ftr.rels_view() == rels,
            same_but_transactions(*ftr, *old(ftr)),
            ftr.reg_view().gens == sp_commit_txs(old(ftr).reg_view().gens, acc, rels),
            sp_read_item(s, old(cbd).cursor(), 4) matches Ok(h) && h.0 == -1,
            sp_tx_block(s, old(cbd).cursor(), d, gdom) == sp_txs(s, cbd.cursor(), d, gdom, acc),
        decreases s.len() - cbd.cursor(),
    {
        proof {
            cbd.lemma_wf_bounds();
        }
        let next = match cbd.peek() {
            Ok(v) => v,
            Err(_) => {
                return Ok(());
            },
        };
        if next == 0xff {
            return Ok(());
        }
        let ghost icur = cbd.cursor();
        let ghost acc0 = acc;
        match parse_tx_entry(ftr, cbd) {
            Ok(_) => {},
            Err(e) => {
                return Err(e);
            },
        }
        proof {
            let done = sp_tx(s, icur, d)->Ok_0;
            acc = acc0.push(done.0);
            lemma_sp_commit_snoc(old(ftr).reg_view().gens, acc0, done.0, rels);
        }
    }
}
fn find_tx_in_gen<'a>(g: &'a TxGenerator, tx_id: usize) -> (r: Option<&'a Transaction>)
    ensures
        match (r, sp_find_tx(g@.txs, tx_id)) {
            (Some(t), Option::Some(tv)) => t@ == tv,
            (None, Option::None) => true,
            _ => false,
        },
{
    let n = g.transactions.len();
    proof {
        assert(g@.txs.skip(0) =~= g@.txs);
    }
    let mut k: usize = 0;
    while k < n
        invariant
            0 <= k <= n == g.transactions@.len(),
            sp_find_tx(g@.txs, tx_id) == sp_find_tx(g@.txs.skip(k as int), tx_id),
            forall|t: int| 0 <= t < k ==> (#[trigger] g@.txs[t]).event.tx_id != tx_id,
        decreases n - k,
    {
        let t = &g.transactions[k];
        proof {
            assert(g@.txs[k as int] == g.transactions@[k as int]@);
            assert(g@.txs.skip(k as int)[0] == g@.txs[k as int]);
        }
        if t.event.tx_id == tx_id {
            proof {
                assert(sp_find_tx(g@.txs.skip(k as int), tx_id) == Option::Some(
                    g@.txs[k as int],
                ));
            }
            return Some(t);
        }
        proof {
            assert(g@.txs.skip(k as int).drop_first() =~= g@.txs.skip(k + 1));
        }
        k = k + 1;
    }
    proof {
        assert(g@.txs.skip(n as int) =~= Seq::<TxView>::empty());
    }
    None
}

/// Resolve the stream id of a legacy relation endpoint: the first
/// generator, in registration order, whose first transaction with the
/// endpoint's id also names that generator, yields its stream id; with
/// no such generator the endpoint resolves to stream 0.
fn backfill_stream_id(ftr: &FTR, tx_id: usize) -> (r: usize)
    requires
        ftr.wf(),
    ensures
        r == sp_backfill(ftr.reg_view().gens, ftr.reg_view().gen_order, 0, tx_id),
{
    let ghost gens = ftr.reg_view().gens;
    let ghost order = ftr.reg_view().gen_order;
    let n = ftr.generator_ids.len();
    let mut j: usize = 0;
    while j < n
        invariant
            ftr.wf(),
            gens == ftr.reg_view().gens,
            order == ftr.reg_view().gen_order,
            0 <= j <= n == order.len(),
            sp_backfill(gens, order, 0, tx_id) == sp_backfill(gens, order, j as int, tx_id),
        decreases n - j,
    {
        let gid = ftr.generator_ids[j];
        let g = match ftr.tx_generators.get(&gid) {
            Some(g) => g,
            None => {
                proof {
                    assert(false);
                }
                return 0;
            },
        };
        proof {
            assert(gens[gid] == g@);
        }
        match find_tx_in_gen(g, tx_id) {
            Some(t) => {
                if t.event.gen_id == gid {
                    return g.stream_id;
                }
            },
            None => {},
        }
        j = j + 1;
    }
    0
}

/// Decode one relationship chunk payload into the relation list: an
/// indefinite array of three- or five-element relation entries, each
/// resolved and appended in order. The three-element legacy form derives
/// each endpoint's stream id by the backfill search.
pub(crate) fn parse_rel(ftr: &mut FTR, cbd: &mut CborDecoder) -> (r: Result<(), FtrError>)
    requires
        old(cbd).wf(),
        old(ftr).wf(),
    ensures
        final(cbd).wf(),
        final(ftr).wf(),
        final(cbd).data() == old(cbd).data(),
        same_but_relations(*final(ftr), *old(ftr)),
        ({
            let sp = sp_rel_chunk(
                old(cbd).data(),
                old(cbd).cursor(),
                dict_view(old(ftr).str_dict@),
                old(ftr).reg_view(),
                old(ftr).rels_view(),
            );
            match (r, sp) {
                (Ok(_), Ok(done)) => {
                    &&& final(ftr).rels_view() == done.0
                    &&& final(cbd).cursor() == done.1
                },
                (Err(e), Err(e2)) => e == e2,
                _ => false,
            }
        }),
{
    proof {
        old(cbd).lemma_wf_bounds();
    }
    let size = cbd.read_array_length()?;
    if size != -1 {
        return Err(FtrError::Format);
    }
    let ghost s = old(cbd).data();
    let ghost d = dict_view(old(ftr).str_dict@);
    let ghost reg = old(ftr).reg_view();
    loop
        invariant
            cbd.wf(),
            ftr.wf(),
            old(ftr).wf(),
            cbd.data() == s,
            s == old(cbd).data(),
            d == dict_view(old(ftr).str_dict@),
            dict_view(ftr.str_dict@) == d,
            reg == old(ftr).reg_view(),
            ftr.reg_view() == reg,
            same_but_relations(*ftr, *old(ftr)),
            sp_rel_chunk(s, old(cbd).cursor(), d, reg, old(ftr).rels_view()) == sp_rels(
                s,
                cbd.cursor(),
                d,
                reg,
                ftr.rels_view(),
            ),
        decreases s.len() - cbd.cursor(),
    {
        proof {
            cbd.lemma_wf_bounds();
        }
        let next = match cbd.peek() {
            Ok(v) => v,
            Err(_) => {
                return Ok(());
            },
        };
        if next == 0xff {
            return Ok(());
        }
        let ghost icur = cbd.cursor();
        let ghost relscur = ftr.rels_view();
        let sz = cbd.read_array_length()?;
        if sz != 3 && sz != 5 {
            return Err(FtrError::Format);
        }
        let v1 = cbd.read_int()?;
        let type_id = int_to_id(v1)?;
        let v2 = cbd.read_int()?;
        let from_tx = int_to_id(v2)?;
        let v3 = cbd.read_int()?;
        let to_tx = int_to_id(v3)?;
        let from_stream: usize;
        let to_stream: usize;
        if sz == 5 {
            let v4 = cbd.read_int()?;
            from_stream = int_to_id(v4)?;
            let v5 = cbd.read_int()?;
            to_stream = int_to_id(v5)?;
        } else {
            from_stream = backfill_stream_id(ftr, from_tx);
            to_stream = backfill_stream_id(ftr, to_tx);
        }
        let rel_name = match ftr.str_dict.get(&type_id) {
            Some(nm) => nm.clone(),
            None => {
                return Err(FtrError::Reference);
            },
        };
        let rel = TxRelation {
            name: rel_name,
            source_tx_id: from_tx,
            sink_tx_id: to_tx,
            source_stream_id: from_stream,
            sink_stream_id: to_stream,
        };
        let ghost rv = rel@;
        ftr.tx_relations.push(rel);
        proof {
            lemma_sp_rel_entry_advances(s, icur, d, reg);
            assert(sp_rel_entry(s, icur, d, reg) == Ok::<_, FtrError>(
                (rv, cbd.cursor() as int),
            ));
            assert(ftr.rels_view() =~= relscur.push(rv));
        }
    }
}

/// Decode one dictionary chunk payload into the root dictionary: a map
/// length, then that many (id, text) pairs. Later chunks add to the same
/// dictionary; a repeated id overwrites silently.
pub(crate) fn parse_dict(ftr: &mut FTR, cbd: &mut CborDecoder) -> (r: Result<(), FtrError>)
    requires
        old(cbd).wf(),
        old(ftr).wf(),
    ensures
        final(cbd).wf(),
        final(ftr).wf(),
        final(cbd).data() == old(cbd).data(),
        same_but_dict(*final(ftr), *old(ftr)),
        old(ftr).str_dict@.dom() <= final(ftr).str_dict@.dom(),
        ({
            let sp = sp_dict_chunk(
                old(cbd).data(),
                old(cbd).cursor(),
                dict_view(old(ftr).str_dict@),
            );
            match (r, sp) {
                (Ok(_), Ok(done)) => {
                    &&& dict_view(final(ftr).str_dict@) == done.0
                    &&& final(cbd).cursor() == done.1
                },
                (Err(e), Err(e2)) => e == e2,
                _ => false,
            }
        }),
{
    proof {
        old(cbd).lemma_wf_bounds();
    }
    let size = match cbd.read_map_length() {
        Ok(v) => v,
        Err(e) => {
            return Err(e);
        },
    };
    if size <= 0 {
        return Ok(());
    }
    let ghost s = cbd.data();
    let ghost d0 = dict_view(old(ftr).str_dict@);
    let ghost start = cbd.cursor();
    let mut k: i64 = 0;
    while k < size
        invariant
            cbd.wf(),
            ftr.wf(),
            old(ftr).wf(),
            cbd.data() == s,
            s == old(cbd).data(),
            d0 == dict_view(old(ftr).str_dict@),
            0 <= k <= size,
            same_but_dict(*ftr, *old(ftr)),
            old(ftr).str_dict@.dom() <= ftr.str_dict@.dom(),
            sp_dict_chunk(s, old(cbd).cursor(), d0) == sp_dict_pairs(s, start, size as nat, d0),
            sp_dict_pairs(s, start, size as nat, d0) == sp_dict_pairs(
                s,
                cbd.cursor(),
                (size - k) as nat,
                dict_view(ftr.str_dict@),
            ),
        decreases size - k,
    {
        let ghost dcur = dict_view(ftr.str_dict@);
        let ghost icur = cbd.cursor();
        proof {
            cbd.lemma_wf_bounds();
        }
        let key = match cbd.read_int() {
            Ok(v) => v,
            Err(e) => {
                return Err(e);
            },
        };
        let id = match int_to_id(key) {
            Ok(u) => u,
            Err(e) => {
                return Err(e);
            },
        };
        let txt = match cbd.read_text_string() {
            Ok(t) => t,
            Err(e) => {
                return Err(e);
            },
        };
        proof {
            assert(sp_read_id(s, icur) == Ok::<_, FtrError>((id, item_end(s, icur))));
        }
        let ghost cs = txt@;
        ftr.str_dict.insert(id, txt);
        proof {
            assert(dict_view(ftr.str_dict@) =~= dcur.insert(id, cs));
        }
        k = k + 1;
    }
    Ok(())
}

/// What reading and decoding one recorded transaction block at position
/// `i` yields: for a compressed block its declared size and compressed
/// bytes, decompressed first; for a raw one the byte-string payload
/// directly.
pub open spec fn sp_load_step(
    bytes: Seq<u8>,
    i: int,
    comp: bool,
    dict: Map<usize, Seq<char>>,
    gdom: Set<usize>,
) -> Result<Seq<(Event, Seq<AttrView>)>, FtrError> {
    if comp {
        match sp_read_int(bytes, i) {
            Err(e) => Err(e),
            Ok((size, i1)) => if !(0 <= size <= usize::MAX) {
                Err(FtrError::Format)
            } else {
                match sp_read_bstr(bytes, i1) {
                    Err(e) => Err(e),
                    Ok((cb, _)) => match lz4_block_decompressed(cb, size as nat) {
                        Option::None => Err(FtrError::Decompress),
                        Option::Some(p) => match sp_tx_block(p, 0, dict, gdom) {
                            Err(e) => Err(e),
                            Ok((txs, _)) => Ok(txs),
                        },
                    },
                }
            },
        }
    } else {
        match sp_read_bstr(bytes, i) {
            Err(e) => Err(e),
            Ok((p, _)) => match sp_tx_block(p, 0, dict, gdom) {
                Err(e) => Err(e),
                Ok((txs, _)) => Ok(txs),
            },
        }
    }
}

/// What loading a stream's recorded blocks from a reopened source does
/// to the generators: for each recorded (offset, compressed) pair in
/// order, seek there, read the block payload (decompressing when
/// flagged), decode its transactions and commit them exactly as the
/// initial pass would have.
pub open spec fn sp_load(
    bytes: Seq<u8>,
    blocks: Seq<(u64, bool)>,
    dict: Map<usize, Seq<char>>,
    gdom: Set<usize>,
    rels: Seq<RelView>,
    gens: Map<usize, GenView>,
) -> Result<Map<usize, GenView>, FtrError>
    decreases blocks.len(),
{
    if blocks.len() == 0 {
        Ok(gens)
    } else {
        let off = blocks[0].0;
        let comp = blocks[0].1;
        let i: int = if off <= bytes.len() {
            off as int
        } else {
            bytes.len() as int
        };
        match sp_load_step(bytes, i, comp, dict, gdom) {
            Err(e) => Err(e),
            Ok(txs) => sp_load(
                bytes,
                blocks.drop_first(),
                dict,
                gdom,
                rels,
                sp_commit_txs(gens, txs, rels),
            ),
        }
    }
}

/// Read and decode one recorded transaction block at the current
/// position, committing its transactions.
fn load_block_at(ftr: &mut FTR, cbd: &mut CborDecoder, comp: bool) -> (r: Result<(), FtrError>)
    requires
        old(cbd).wf(),
        old(ftr).wf(),
    ensures
        final(cbd).wf(),
        final(cbd).data() == old(cbd).data(),
        final(ftr).wf(),
        same_but_transactions(*final(ftr), *old(ftr)),
        final(ftr).tx_generators@.dom() == old(ftr).tx_generators@.dom(),
        ({
            let step = sp_load_step(
                old(cbd).data(),
                old(cbd).cursor(),
                comp,
                dict_view(old(ftr).str_dict@),
                old(ftr).tx_generators@.dom(),
            );
            match (r, step) {
                (Ok(_), Ok(txs)) => final(ftr).reg_view().gens == sp_commit_txs(
                    old(ftr).reg_view().gens,
                    txs,
                    old(ftr).rels_view(),
                ),
                (Err(e), Err(e2)) => e == e2,
                _ => false,
            }
        }),
{
    proof {
        old(cbd).lemma_wf_bounds();
    }
    if comp {
        let szv = cbd.read_int()?;
        let size = int_to_id(szv)?;
        let cb = cbd.read_byte_string()?;
        let payload = match decompress_block(&cb, size) {
            Some(p) => p,
            None => {
                return Err(FtrError::Decompress);
            },
        };
        let mut inner = CborDecoder::new(payload);
        parse_tx_block(ftr, &mut inner)?;
    } else {
        let payload = cbd.read_byte_string()?;
        let mut inner = CborDecoder::new(payload);
        parse_tx_block(ftr, &mut inner)?;
    }
    Ok(())
}

/// Copy a run of bytes.
fn clone_bytes(v: &Vec<u8>) -> (r: Vec<u8>)
    ensures
        r@ == v@,
{
    let mut out: Vec<u8> = Vec::new();
    let mut i: usize = 0;
    while i < v.len()
        invariant
            0 <= i <= v@.len(),
            out@ =~= v@.subrange(0, i as int),
        decreases v@.len() - i,
    {
        out.push(v[i]);
        proof {
            assert(out@ =~= v@.subrange(0, i + 1));
        }
        i = i + 1;
    }
    proof {
        assert(v@.subrange(0, v@.len() as int) =~= v@);
    }
    out
}

/// Copy a list of recorded block positions.
fn clone_block_list(v: &Vec<(u64, bool)>) -> (r: Vec<(u64, bool)>)
    ensures
        r@ == v@,
{
    let mut out: Vec<(u64, bool)> = Vec::new();
    let mut i: usize = 0;
    while i < v.len()
        invariant
            0 <= i <= v@.len(),
            out@ =~= v@.subrange(0, i as int),
        decreases v@.len() - i,
    {
        out.push(v[i]);
        proof {
            assert(out@ =~= v@.subrange(0, i + 1));
        }
        i = i + 1;
    }
    proof {
        assert(v@.subrange(0, v@.len() as int) =~= v@);
    }
    out
}

/// Load every recorded transaction block of one stream from the bytes of
/// the reopened source: seek to each recorded offset in order, decode
/// the block there (decompressing when flagged) and commit its
/// transactions, then mark the stream resident.
#[verifier::rlimit(100)]
#[verifier::spinoff_prover]
pub(crate) fn load_transactions(ftr: &mut FTR, file: &Vec<u8>, stream_id: usize) -> (r: Result<
    (),
    FtrError,
>)
    requires
        old(ftr).wf(),
        old(ftr).tx_streams@.contains_key(stream_id),
    ensures
        final(ftr).wf(),
        same_but_transactions_and_residency(*final(ftr), *old(ftr), stream_id),
        ({
            let sp = sp_load(
                file@,
                old(ftr).tx_streams@[stream_id]@.blocks,
                dict_view(old(ftr).str_dict@),
                old(ftr).tx_generators@.dom(),
                old(ftr).rels_view(),
                old(ftr).reg_view().gens,
            );
            match (r, sp) {
                (Ok(_), Ok(gens2)) => {
                    &&& final(ftr).reg_view().gens == gens2
                    &&& stream_marked_loaded(
                        final(ftr).tx_streams@[stream_id],
                        old(ftr).tx_streams@[stream_id],
                    )
                    &&& forall|k: usize|
                        old(ftr).tx_streams@.contains_key(k) && k != stream_id
                            ==> final(ftr).tx_streams@[k] == (#[trigger] old(ftr).tx_streams@[k])
                },
                (Err(e), Err(e2)) => e == e2,
                _ => false,
            }
        }),
{
    let ghost bytes = file@;
    let ghost d = dict_view(old(ftr).str_dict@);
    let ghost gdom = old(ftr).tx_generators@.dom();
    let ghost rels = old(ftr).rels_view();
    let blocks = match ftr.tx_streams.get(&stream_id) {
        Some(st) => clone_block_list(&st.tx_block_ids),
        None => {
            proof {
                assert(false);
            }
            return Err(FtrError::Reference);
        },
    };
    let ghost allblocks = blocks@;
    let mut cbd = CborDecoder::new(clone_bytes(file));
    let n = blocks.len();
    proof {
        assert(allblocks.skip(0) =~= allblocks);
    }
    let mut k: usize = 0;
    while k < n
        invariant
            cbd.wf(),
            ftr.wf(),
            old(ftr).wf(),
            cbd.data() == bytes,
            bytes == file@,
            d == dict_view(old(ftr).str_dict@),
            gdom == old(ftr).tx_generators@.dom(),
            rels == old(ftr).rels_view(),
            old(ftr).tx_streams@.contains_key(stream_id),
            allblocks == old(ftr).tx_streams@[stream_id]@.blocks,
            0 <= k <= n == allblocks.len(),
            blocks@ == allblocks,
            same_but_transactions(*ftr, *old(ftr)),
            ftr.tx_generators@.dom() == gdom,
            sp_load(bytes, allblocks, d, gdom, rels, old(ftr).reg_view().gens) == sp_load(
                bytes,
                allblocks.skip(k as int),
                d,
                gdom,
                rels,
                ftr.reg_view().gens,
            ),
        decreases n - k,
    {
        let (off, comp) = blocks[k];
        proof {
            assert(allblocks.skip(k as int)[0] == allblocks[k as int]);
            assert(allblocks.skip(k as int).drop_first() =~= allblocks.skip(k + 1));
        }
        let dlen = cbd.source_len();
        let off_usize: usize = if off <= (dlen as u64) {
            off as usize
        } else {
            dlen
        };
        cbd.seek_to(off_usize);
        proof {
            assert(cbd.cursor() == (if off <= bytes.len() {
                off as int
            } else {
                bytes.len() as int
            }));
        }
        match load_block_at(ftr, &mut cbd, comp) {
            Ok(_) => {},
            Err(e) => {
                return Err(e);
            },
        }
        k = k + 1;
    }
    proof {
        assert(allblocks.skip(n as int) =~= Seq::<(u64, bool)>::empty());
    }
    match ftr.tx_streams.remove(&stream_id) {
        Some(mut st) => {
            st.transactions_loaded = true;
            ftr.tx_streams.insert(stream_id, st);
        },
        None => {
            proof {
                assert(false);
            }
        },
    }
    proof {
        let o = *old(ftr);
        assert(ftr.tx_streams@.dom() =~= o.tx_streams@.dom());
        assert forall|j: int| 0 <= j < ftr.stream_ids@.len() implies ftr.tx_streams@.contains_key(
            #[trigger] ftr.stream_ids@[j],
        ) by {
            assert(o.tx_streams@.contains_key(o.stream_ids@[j]));
        }
        assert forall|k2: usize| #[trigger]
            ftr.tx_streams@.contains_key(k2) implies ftr.stream_ids@.contains(k2) by {
            assert(o.tx_streams@.contains_key(k2));
        }
        assert forall|k2: usize|
            #![trigger ftr.tx_streams@[k2]]
            ftr.tx_streams@.contains_key(k2) implies (forall|j: int|
            0 <= j < ftr.tx_streams@[k2].generators@.len() ==> ftr.tx_generators@.contains_key(
                #[trigger] ftr.tx_streams@[k2].generators@[j],
            )) by {
            assert(o.tx_streams@.contains_key(k2));
            if k2 == stream_id {
                assert(ftr.tx_streams@[k2].generators@ == o.tx_streams@[k2].generators@);
            } else {
                assert(ftr.tx_streams@[k2] == o.tx_streams@[k2]);
            }
        }
    }
    Ok(())
}

/// `s2` is `s1` marked resident, with everything else kept.
pub open spec fn stream_marked_loaded(s2: TxStream, s1: TxStream) -> bool {
    &&& s2.id == s1.id
    &&& s2.name == s1.name
    &&& s2.kind == s1.kind
    &&& s2.generators@ == s1.generators@
    &&& s2.tx_block_ids@ == s1.tx_block_ids@
    &&& s2.transactions_loaded == true
}

/// Everything of the model except the generators' transaction lists and
/// the residency mark of one stream is untouched.
pub open spec fn same_but_transactions_and_residency(f2: FTR, f1: FTR, sid: usize) -> bool {
    &&& f2.time_scale == f1.time_scale
    &&& f2.max_timestamp == f1.max_timestamp
    &&& f2.str_dict@ == f1.str_dict@
    &&& f2.tx_relations@ == f1.tx_relations@
    &&& f2.stream_ids@ == f1.stream_ids@
    &&& f2.generator_ids@ == f1.generator_ids@
    &&& f2.file_backed == f1.file_backed
    &&& f2.tx_streams@.dom() == f1.tx_streams@.dom()
    &&& f2.tx_generators@.dom() == f1.tx_generators@.dom()
}

/// Parse a whole container held in memory, eagerly: transaction blocks
/// are decoded at once, and the result refuses later load requests.
pub fn read_from_bytes(bytes: Vec<u8>) -> (r: Result<FTR, FtrError>)
    ensures
        ({
            let sp = sp_parse(bytes@, 0, initial_model(), false);
            match (r, sp) {
                (Ok(f), Ok(done)) => f.wf() && f.model_view() == done.0 && !f.file_backed,
                (Err(e), Err(e2)) => e == e2,
                _ => false,
            }
        }),
{
    let mut ftr = FTR::new(false);
    proof {
        assert(ftr.model_view() =~~= initial_model());
    }
    let mut cbd = CborDecoder::new(bytes);
    match parse_input(&mut ftr, &mut cbd) {
        Ok(_) => Ok(ftr),
        Err(e) => Err(e),
    }
}

/// Parse the bytes of a reopenable file: directory, dictionary, info and
/// relationship chunks are decoded eagerly, while transaction blocks are
/// only recorded by position, for `load_stream_into_memory` to fetch
/// later from the same file.
pub fn read_from_file_bytes(bytes: Vec<u8>) -> (r: Result<FTR, FtrError>)
    ensures
        ({
            let sp = sp_parse(bytes@, 0, initial_model(), true);
            match (r, sp) {
                (Ok(f), Ok(done)) => f.wf() && f.model_view() == done.0 && f.file_backed,
                (Err(e), Err(e2)) => e == e2,
                _ => false,
            }
        }),
{
    let mut ftr = FTR::new(true);
    proof {
        assert(ftr.model_view() =~~= initial_model());
    }
    let mut cbd = CborDecoder::new(bytes);
    match parse_input(&mut ftr, &mut cbd) {
        Ok(_) => Ok(ftr),
        Err(e) => Err(e),
    }
}

/// Whether a byte source opens with the container format's
/// self-describing tag 55799.
pub fn is_ftr(bytes: &Vec<u8>) -> (r: bool)
    ensures
        r == ({
            match sp_read_item(bytes@, 0, 6) {
                Ok(done) => done.0 == 55799,
                Err(_) => false,
            }
        }),
{
    let mut cbd = CborDecoder::new(clone_bytes(bytes));
    match cbd.read_tag() {
        Ok(tag) => tag == 55799,
        Err(_) => false,
    }
}


impl FTR {
    /// Load the transactions of the stream registered under `stream_id`
    /// from the bytes of the reopened source file: every recorded block
    /// of the stream is fetched by offset and decoded exactly as the
    /// initial pass would have. Only a model parsed from a reopenable
    /// file accepts this; one parsed from a plain buffer already holds
    /// its transactions and refuses.
    pub fn load_stream_into_memory(&mut self, stream_id: usize, file: &Vec<u8>) -> (r: Result<
        (),
        FtrError,
    >)
        requires
            old(self).wf(),
            old(self).tx_streams@.contains_key(stream_id),
        ensures
            final(self).wf(),
            !old(self).file_backed ==> r == Err::<(), FtrError>(FtrError::Format) && *final(self)
                == *old(self),
            old(self).file_backed ==> {
                &&& same_but_transactions_and_residency(*final(self), *old(self), stream_id)
                &&& ({
                    let sp = sp_load(
                        file@,
                        old(self).tx_streams@[stream_id]@.blocks,
                        dict_view(old(self).str_dict@),
                        old(self).tx_generators@.dom(),
                        old(self).rels_view(),
                        old(self).reg_view().gens,
                    );
                    match (r, sp) {
                        (Ok(_), Ok(gens2)) => {
                            &&& final(self).reg_view().gens == gens2
                            &&& stream_marked_loaded(
                                final(self).tx_streams@[stream_id],
                                old(self).tx_streams@[stream_id],
                            )
                            &&& forall|k: usize|
                                old(self).tx_streams@.contains_key(k) && k != stream_id
                                    ==> final(self).tx_streams@[k] == (#[trigger] old(
                                    self,
                                ).tx_streams@[k])
                        },
                        (Err(e), Err(e2)) => e == e2,
                        _ => false,
                    }
                })
            },
    {
        if !self.file_backed {
            return Err(FtrError::Format);
        }
        load_transactions(self, file, stream_id)
    }
}

/// Every transaction a block run decodes names a registered generator.
proof fn lemma_sp_txs_gdom(
    s: Seq<u8>,
    i: int,
    dict: Map<usize, Seq<char>>,
    gdom: Set<usize>,
    acc: Seq<(Event, Seq<AttrView>)>,
)
    requires
        forall|j: int| 0 <= j < acc.len() ==> gdom.contains((#[trigger] acc[j]).0.gen_id),
    ensures
        sp_txs(s, i, dict, gdom, acc) matches Ok(done) ==> forall|j: int|
            0 <= j < done.0.len() ==> gdom.contains((#[trigger] done.0[j]).0.gen_id),
    decreases s.len() - i,
{
    if 0 <= i < s.len() && s[i] != 0xff {
        match sp_tx(s, i, dict) {
            Err(_) => {},
            Ok((t, i2)) => {
                if gdom.contains(t.0.gen_id) && i < i2 <= s.len() {
                    assert forall|j: int|
                        0 <= j < acc.push(t).len() implies gdom.contains(
                        (#[trigger] acc.push(t)[j]).0.gen_id,
                    ) by {
                        if j < acc.len() {
                            assert(acc.push(t)[j] == acc[j]);
                        }
                    }
                    lemma_sp_txs_gdom(s, i2, dict, gdom, acc.push(t));
                }
            },
        }
    }
}

/// Committing a run of transactions touches one generator's list the
/// same way in two registries that agree on that list, whatever the
/// other generators hold.
proof fn lemma_commit_txs_tracks_one(
    gens1: Map<usize, GenView>,
    gens2: Map<usize, GenView>,
    txs: Seq<(Event, Seq<AttrView>)>,
    rels: Seq<RelView>,
    g: usize,
)
    requires
        gens1.dom() =~= gens2.dom(),
        forall|j: int| 0 <= j < txs.len() ==> gens1.dom().contains((#[trigger] txs[j]).0.gen_id),
        gens1[g].txs == gens2[g].txs,
    ensures
        sp_commit_txs(gens1, txs, rels).dom() =~= gens1.dom(),
        sp_commit_txs(gens2, txs, rels).dom() =~= gens2.dom(),
        sp_commit_txs(gens1, txs, rels)[g].txs == sp_commit_txs(gens2, txs, rels)[g].txs,
    decreases txs.len(),
{
    if txs.len() > 0 {
        let t = txs[0];
        let c1 = sp_commit_one(gens1, t.0, t.1, rels);
        let c2 = sp_commit_one(gens2, t.0, t.1, rels);
        assert(c1.dom() =~= gens1.dom());
        assert(c2.dom() =~= gens2.dom());
        assert(c1[g].txs == c2[g].txs);
        assert forall|j: int|
            0 <= j < txs.drop_first().len() implies gens1.dom().contains(
            (#[trigger] txs.drop_first()[j]).0.gen_id,
        ) by {
            assert(txs.drop_first()[j] == txs[j + 1]);
        }
        lemma_commit_txs_tracks_one(c1, c2, txs.drop_first(), rels, g);
    }
}

/// Law of reproducible loading: what a load appends to one generator
/// depends on the source bytes, the recorded blocks, the dictionary, the
/// registered generator ids and the relation list alone — not on the
/// transactions already resident anywhere. So two models that agree on
/// all of those, and whose generator lists for the loaded stream are
/// empty in both (as they are right after a deferred parse, and again
/// right after a drop), are given identical transaction lists by the
/// load: load, drop, load reproduces the first load byte for byte.
pub proof fn lemma_load_reproducible(
    bytes: Seq<u8>,
    blocks: Seq<(u64, bool)>,
    dict: Map<usize, Seq<char>>,
    gdom: Set<usize>,
    rels: Seq<RelView>,
    gens1: Map<usize, GenView>,
    gens2: Map<usize, GenView>,
    g: usize,
)
    requires
        gens1.dom() =~= gens2.dom(),
        gdom =~= gens1.dom(),
        gens1[g].txs == gens2[g].txs,
    ensures
        match (
            sp_load(bytes, blocks, dict, gdom, rels, gens1),
            sp_load(bytes, blocks, dict, gdom, rels, gens2),
        ) {
            (Ok(r1), Ok(r2)) => r1[g].txs == r2[g].txs,
            (Err(e1), Err(e2)) => e1 == e2,
            _ => false,
        },
    decreases blocks.len(),
{
    if blocks.len() > 0 {
        let off = blocks[0].0;
        let comp = blocks[0].1;
        let i: int = if off <= bytes.len() {
            off as int
        } else {
            bytes.len() as int
        };
        match sp_load_step(bytes, i, comp, dict, gdom) {
            Err(_) => {},
            Ok(txs) => {
                assert(forall|j: int|
                    0 <= j < txs.len() ==> gdom.contains((#[trigger] txs[j]).0.gen_id)) by {
                    if comp {
                        match sp_read_int(bytes, i) {
                            Err(_) => {},
                            Ok((size, i1)) => {
                                match sp_read_bstr(bytes, i1) {
                                    Err(_) => {},
                                    Ok((cb, _)) => {
                                        match lz4_block_decompressed(cb, size as nat) {
                                            Option::None => {},
                                            Option::Some(p) => {
                                                lemma_sp_tx_block_gdom(p, dict, gdom);
                                            },
                                        }
                                    },
                                }
                            },
                        }
                    } else {
                        match sp_read_bstr(bytes, i) {
                            Err(_) => {},
                            Ok((p, _)) => {
                                lemma_sp_tx_block_gdom(p, dict, gdom);
                            },
                        }
                    }
                }
                assert forall|j: int|
                    0 <= j < txs.len() implies gens1.dom().contains(
                    (#[trigger] txs[j]).0.gen_id,
                ) by {}
                lemma_commit_txs_tracks_one(gens1, gens2, txs, rels, g);
                lemma_load_reproducible(
                    bytes,
                    blocks.drop_first(),
                    dict,
                    gdom,
                    rels,
                    sp_commit_txs(gens1, txs, rels),
                    sp_commit_txs(gens2, txs, rels),
                    g,
                );
            },
        }
    }
}

/// Every transaction a whole block payload decodes names a registered
/// generator.
proof fn lemma_sp_tx_block_gdom(p: Seq<u8>, dict: Map<usize, Seq<char>>, gdom: Set<usize>)
    ensures
        sp_tx_block(p, 0, dict, gdom) matches Ok(done) ==> forall|j: int|
            0 <= j < done.0.len() ==> gdom.contains((#[trigger] done.0[j]).0.gen_id),
{
    match sp_read_item(p, 0, 4) {
        Err(_) => {},
        Ok((sz, i2)) => {
            if sz == -1 {
                lemma_sp_txs_gdom(p, i2, dict, gdom, Seq::empty());
            }
        },
    }
}



/// Law of indefinite-run termination, for relation entries: a decode
/// that succeeds stops exactly at the break marker (or at the end of an
/// exhausted source) and never reads past it; every entry before the
/// marker is decoded and appended, none after it.
pub proof fn lemma_sp_rels_stops_at_break(
    s: Seq<u8>,
    i: int,
    dict: Map<usize, Seq<char>>,
    reg: RegView,
    rels: Seq<RelView>,
)
    requires
        0 <= i <= s.len(),
    ensures
        sp_rels(s, i, dict, reg, rels) matches Ok(done) ==> {
            &&& done.1 <= s.len()
            &&& (done.1 == s.len() || s[done.1] == 0xff)
            &&& done.0.len() >= rels.len()
        },
    decreases s.len() - i,
{
    if 0 <= i < s.len() && s[i] != 0xff {
        match sp_rel_entry(s, i, dict, reg) {
            Err(_) => {},
            Ok((rv, i2)) => {
                if i < i2 <= s.len() {
                    lemma_sp_rels_stops_at_break(s, i2, dict, reg, rels.push(rv));
                }
            },
        }
    }
}

/// Law of indefinite-run termination, for transaction entries.
pub proof fn lemma_sp_txs_stops_at_break(
    s: Seq<u8>,
    i: int,
    dict: Map<usize, Seq<char>>,
    gdom: Set<usize>,
    acc: Seq<(Event, Seq<AttrView>)>,
)
    requires
        0 <= i <= s.len(),
    ensures
        sp_txs(s, i, dict, gdom, acc) matches Ok(done) ==> {
            &&& done.1 <= s.len()
            &&& (done.1 == s.len() || s[done.1] == 0xff)
            &&& done.0.len() >= acc.len()
        },
    decreases s.len() - i,
{
    if 0 <= i < s.len() && s[i] != 0xff {
        match sp_tx(s, i, dict) {
            Err(_) => {},
            Ok((t, i2)) => {
                if gdom.contains(t.0.gen_id) && i < i2 <= s.len() {
                    lemma_sp_txs_stops_at_break(s, i2, dict, gdom, acc.push(t));
                }
            },
        }
    }
}

/// Law of indefinite-run termination, for directory entries.
pub proof fn lemma_sp_dir_entries_stops_at_break(
    s: Seq<u8>,
    i: int,
    dict: Map<usize, Seq<char>>,
    reg: RegView,
)
    requires
        0 <= i <= s.len(),
    ensures
        sp_dir_entries(s, i, dict, reg) matches Ok(done) ==> {
            &&& done.1 <= s.len()
            &&& (done.1 == s.len() || s[done.1] == 0xff)
        },
    decreases s.len() - i,
{
    if 0 <= i < s.len() && s[i] != 0xff {
        match sp_dir_entry(s, i, dict, reg) {
            Err(_) => {},
            Ok((reg2, i2)) => {
                if i < i2 <= s.len() {
                    lemma_sp_dir_entries_stops_at_break(s, i2, dict, reg2);
                }
            },
        }
    }
}



/// Law of dictionary resolution for attributes: when the rest of the
/// attribute decodes, a name id absent from the dictionary is the
/// Reference failure — never a panic and never a silent default; and a
/// label-coded value (enumeration, bit vector, logic vector, string)
/// naming an absent id is the Reference failure as well.
pub proof fn lemma_sp_attr_absent_id_is_reference(
    s: Seq<u8>,
    i: int,
    dict: Map<usize, Seq<char>>,
    kind: AttributeType,
)
    ensures
        ({
            match sp_read_id(s, i) {
                Err(_) => true,
                Ok((nid, i1)) => match sp_read_int(s, i1) {
                    Err(_) => true,
                    Ok((code, i2)) => match sp_attr_value(s, i2, dict, code) {
                        Err(_) => true,
                        Ok(_) => !dict.contains_key(nid) ==> sp_attr(s, i, dict, kind) == Err::<
                            (AttrView, int),
                            FtrError,
                        >(FtrError::Reference),
                    },
                },
            }
        }),
        ({
            match sp_read_id(s, i) {
                Err(_) => true,
                Ok((_, i1)) => match sp_read_int(s, i1) {
                    Err(_) => true,
                    Ok((code, i2)) => (code == 1 || code == 5 || code == 6 || code == 10)
                        ==> match sp_read_id(s, i2) {
                        Err(_) => true,
                        Ok((vid, _)) => !dict.contains_key(vid) ==> sp_attr(s, i, dict, kind)
                            == Err::<(AttrView, int), FtrError>(FtrError::Reference),
                    },
                },
            }
        }),
{
}

/// Law of dictionary resolution for directory entries: in a
/// well-shaped stream entry, a name id absent from the dictionary, or a
/// name that resolves while the kind id does not, is the Reference
/// failure; in a well-shaped generator entry an absent name id is the
/// Reference failure. Never a panic and never a silent default.
pub proof fn lemma_sp_dir_entry_absent_id_is_reference(
    s: Seq<u8>,
    i: int,
    dict: Map<usize, Seq<char>>,
    reg: RegView,
)
    ensures
        ({
            match sp_read_item(s, i, 6) {
                Err(_) => true,
                Ok((tag, i1)) => (tag == 16 || tag == 17) ==> match sp_read_item(s, i1, 4) {
                    Err(_) => true,
                    Ok((len, i2)) => len == 3 ==> match sp_read_id(s, i2) {
                        Err(_) => true,
                        Ok((_, i3)) => match sp_read_id(s, i3) {
                            Err(_) => true,
                            Ok((nid, _)) => !dict.contains_key(nid) ==> sp_dir_entry(
                                s,
                                i,
                                dict,
                                reg,
                            ) == Err::<(RegView, int), FtrError>(FtrError::Reference),
                        },
                    },
                },
            }
        }),
        ({
            match sp_read_item(s, i, 6) {
                Err(_) => true,
                Ok((tag, i1)) => tag == 16 ==> match sp_read_item(s, i1, 4) {
                    Err(_) => true,
                    Ok((len, i2)) => len == 3 ==> match sp_read_id(s, i2) {
                        Err(_) => true,
                        Ok((_, i3)) => match sp_read_id(s, i3) {
                            Err(_) => true,
                            Ok((nid, i4)) => dict.contains_key(nid) ==> match sp_read_id(s, i4) {
                                Err(_) => true,
                                Ok((kid, _)) => !dict.contains_key(kid) ==> sp_dir_entry(
                                    s,
                                    i,
                                    dict,
                                    reg,
                                ) == Err::<(RegView, int), FtrError>(FtrError::Reference),
                            },
                        },
                    },
                },
            }
        }),
{
}

/// Law of dictionary resolution for relation entries: in a well-shaped
/// entry whose fields decode, a type id absent from the dictionary is
/// the Reference failure — never a panic and never a silent default.
pub proof fn lemma_sp_rel_entry_absent_id_is_reference(
    s: Seq<u8>,
    i: int,
    dict: Map<usize, Seq<char>>,
    reg: RegView,
)
    ensures
        ({
            match sp_read_item(s, i, 4) {
                Err(_) => true,
                Ok((sz, i1)) => (sz == 3 || sz == 5) ==> match sp_read_id(s, i1) {
                    Err(_) => true,
                    Ok((type_id, i2)) => match sp_read_id(s, i2) {
                        Err(_) => true,
                        Ok((_, i3)) => match sp_read_id(s, i3) {
                            Err(_) => true,
                            Ok((_, i4)) => {
                                let stream_part_ok = if sz == 5 {
                                    match sp_read_id(s, i4) {
                                        Err(_) => false,
                                        Ok((_, i5)) => sp_read_id(s, i5) is Ok,
                                    }
                                } else {
                                    true
                                };
                                stream_part_ok && !dict.contains_key(type_id) ==> sp_rel_entry(
                                    s,
                                    i,
                                    dict,
                                    reg,
                                ) == Err::<(RelView, int), FtrError>(FtrError::Reference)
                            },
                        },
                    },
                },
            }
        }),
{
}


} // verus!
