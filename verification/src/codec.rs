//! Decoding and encoding between JSON values and the typed response model,
//! and the envelope that tells a success payload from a server-reported
//! error payload carried under the same HTTP status.
//!
//! Field names are fixed by the remote protocol and are matched character
//! for character. Unknown members are ignored on decode; every required
//! member must be present with the right shape.

use vstd::prelude::*;
use vstd::string::StringExecFns;

use crate::json::{
    arr_view, obj_view, parse_json, ser_json, spec_parse_json, spec_ser, Json, JsonV,
};
use crate::model::{
    Tag, TagV, TransactionConfirmedData, TransactionConfirmedDataV, TransactionData,
    TransactionDataV, TransactionStatusResponse, TransactionStatusResponseV,
};

verus! {

broadcast use {vstd::seq::group_seq_axioms, vstd::std_specs::vec::group_vec_axioms};

/// The value under the first member with the given name, if any.
pub open spec fn spec_obj_get(m: Seq<(Seq<char>, JsonV)>, key: Seq<char>) -> Option<JsonV>
    decreases m.len(),
{
    if m.len() == 0 {
        None
    } else if m[0].0 == key {
        Some(m[0].1)
    } else {
        spec_obj_get(m.drop_first(), key)
    }
}

/// The member's contents when it holds a string.
pub open spec fn spec_str_field(m: Seq<(Seq<char>, JsonV)>, key: Seq<char>) -> Option<Seq<char>> {
    match spec_obj_get(m, key) {
        Some(JsonV::Str(t)) => Some(t),
        _ => None,
    }
}

/// The member's contents when it holds an unsigned integer.
pub open spec fn spec_uint_field(m: Seq<(Seq<char>, JsonV)>, key: Seq<char>) -> Option<u64> {
    match spec_obj_get(m, key) {
        Some(JsonV::UInt(n)) => Some(n),
        _ => None,
    }
}

/// A tag decoded from its JSON shape: an object with `name` and `value`.
pub open spec fn spec_tag_of_json(j: JsonV) -> Option<TagV> {
    match j {
        JsonV::Obj(m) => match (spec_str_field(m, "name"@), spec_str_field(m, "value"@)) {
            (Some(n), Some(v)) => Some(TagV { name: n, value: v }),
            _ => None,
        },
        _ => None,
    }
}

/// A tag sequence decoded element by element; any bad element fails the whole.
pub open spec fn spec_tags_of_json(elems: Seq<JsonV>) -> Option<Seq<TagV>>
    decreases elems.len(),
{
    if elems.len() == 0 {
        Some(Seq::empty())
    } else {
        match (spec_tag_of_json(elems[0]), spec_tags_of_json(elems.drop_first())) {
            (Some(t), Some(rest)) => Some(seq![t] + rest),
            _ => None,
        }
    }
}

/// Raw bytes decoded from a JSON array of integers, each at most 255.
pub open spec fn spec_bytes_of_json(elems: Seq<JsonV>) -> Option<Seq<u8>>
    decreases elems.len(),
{
    if elems.len() == 0 {
        Some(Seq::empty())
    } else {
        match elems[0] {
            JsonV::UInt(n) => if n <= 255 {
                match spec_bytes_of_json(elems.drop_first()) {
                    Some(rest) => Some(seq![n as u8] + rest),
                    None => None,
                }
            } else {
                None
            },
            _ => None,
        }
    }
}

/// A transaction record decoded from its JSON shape. Every field is
/// required; unknown members are ignored.
pub open spec fn spec_tx_of_json(j: JsonV) -> Option<TransactionDataV> {
    match j {
        JsonV::Obj(m) => {
            let tags = match spec_obj_get(m, "tags"@) {
                Some(JsonV::Arr(e)) => spec_tags_of_json(e),
                _ => None,
            };
            let data = match spec_obj_get(m, "data"@) {
                Some(JsonV::Arr(e)) => spec_bytes_of_json(e),
                _ => None,
            };
            match (spec_uint_field(m, "format"@), spec_str_field(m, "id"@), spec_str_field(m, "last_tx"@),
                spec_str_field(m, "owner"@), tags, spec_str_field(m, "target"@),
                spec_str_field(m, "quantity"@), data, spec_str_field(m, "reward"@),
                spec_str_field(m, "signature"@), spec_str_field(m, "data_size"@),
                spec_str_field(m, "data_root"@)) {
                (Some(f), Some(id), Some(lt), Some(ow), Some(tg), Some(ta), Some(qu), Some(dt),
                    Some(rw), Some(sg), Some(ds), Some(dr)) => if f <= usize::MAX as u64 {
                    Some(TransactionDataV {
                        format: f as usize,
                        id: id,
                        last_tx: lt,
                        owner: ow,
                        tags: tg,
                        target: ta,
                        quantity: qu,
                        data: dt,
                        reward: rw,
                        signature: sg,
                        data_size: ds,
                        data_root: dr,
                    })
                } else {
                    None
                },
                _ => None,
            }
        },
        _ => None,
    }
}

/// A confirmation record decoded from its JSON shape.
pub open spec fn spec_conf_of_json(j: JsonV) -> Option<TransactionConfirmedDataV> {
    match j {
        JsonV::Obj(m) => match (spec_str_field(m, "block_indep_hash"@),
            spec_uint_field(m, "block_height"@), spec_uint_field(m, "number_of_confirmations"@)) {
            (Some(h), Some(bh), Some(nc)) => if bh <= usize::MAX as u64 && nc <= usize::MAX as u64 {
                Some(TransactionConfirmedDataV {
                    block_indep_hash: h,
                    block_height: bh as usize,
                    number_of_confirmations: nc as usize,
                })
            } else {
                None
            },
            _ => None,
        },
        _ => None,
    }
}

/// A status record decoded from its JSON shape. `confirmed` may be absent
/// or `null`, which both mean "not yet in a block".
pub open spec fn spec_status_of_json(j: JsonV) -> Option<TransactionStatusResponseV> {
    match j {
        JsonV::Obj(m) => {
            let conf = match spec_obj_get(m, "confirmed"@) {
                None => Some(None::<TransactionConfirmedDataV>),
                Some(JsonV::Null) => Some(None),
                Some(c) => match spec_conf_of_json(c) {
                    Some(cv) => Some(Some(cv)),
                    None => None,
                },
            };
            match (spec_uint_field(m, "status"@), conf) {
                (Some(st), Some(cv)) => if st <= usize::MAX as u64 {
                    Some(TransactionStatusResponseV { status: st as usize, confirmed: cv })
                } else {
                    None
                },
                _ => None,
            }
        },
        _ => None,
    }
}

/// A whole body decoded as a transaction record.
pub open spec fn spec_decode_tx(body: Seq<char>) -> Option<TransactionDataV> {
    match spec_parse_json(body) {
        Some(j) => spec_tx_of_json(j),
        None => None,
    }
}

/// A whole body decoded as a status record.
pub open spec fn spec_decode_status(body: Seq<char>) -> Option<TransactionStatusResponseV> {
    match spec_parse_json(body) {
        Some(j) => spec_status_of_json(j),
        None => None,
    }
}

/// Copies a string; the copy has the same characters.
fn copy_string(s: &String) -> (r: String)
    ensures
        r@ == s@,
{
    String::from_str(s.as_str())
}

/// Finds the first member with the given name and returns its index.
fn obj_find(v: &Vec<(String, Json)>, key: &String) -> (r: Option<usize>)
    ensures
        match r {
            Some(ix) => ix < v@.len() && spec_obj_get(obj_view(v@), key@) == Some(
                v@[ix as int].1@,
            ),
            None => spec_obj_get(obj_view(v@), key@) is None,
        },
{
    let mut ix: usize = 0;
    proof {
        assert(obj_view(v@).skip(0) =~= obj_view(v@));
    }
    while ix < v.len()
        invariant
            ix <= v@.len(),
            spec_obj_get(obj_view(v@), key@) == spec_obj_get(obj_view(v@).skip(ix as int), key@),
        decreases v@.len() - ix,
    {
        let ghost rest = obj_view(v@).skip(ix as int);
        proof {
            assert(rest.len() > 0);
            assert(rest[0] == obj_view(v@)[ix as int]);
            assert(rest.drop_first() =~= obj_view(v@).skip(ix as int + 1));
        }
        if (&v[ix].0).eq(key) {
            proof {
                assert(v@[ix as int].0@ == key@);
                assert(rest[0].0 == key@);
                assert(spec_obj_get(rest, key@) == Some(rest[0].1));
                assert(rest[0].1 == v@[ix as int].1@);
            }
            return Some(ix);
        }
        proof {
            assert(v@[ix as int].0@ != key@);
            assert(rest[0].0 != key@);
            assert(spec_obj_get(rest, key@) == spec_obj_get(rest.drop_first(), key@));
        }
        ix = ix + 1;
    }
    proof {
        assert(obj_view(v@).skip(v@.len() as int) =~= Seq::<(Seq<char>, JsonV)>::empty());
    }
    None
}

/// Reads a required string member, copying its contents.
fn get_str_field(v: &Vec<(String, Json)>, key: &String) -> (r: Option<String>)
    ensures
        match r {
            Some(t) => spec_str_field(obj_view(v@), key@) == Some(t@),
            None => spec_str_field(obj_view(v@), key@) is None,
        },
{
    match obj_find(v, key) {
        Some(ix) => match &v[ix].1 {
            Json::Str(s) => Some(copy_string(s)),
            _ => None,
        },
        None => None,
    }
}

/// Reads a required unsigned-integer member.
fn get_uint_field(v: &Vec<(String, Json)>, key: &String) -> (r: Option<u64>)
    ensures
        match r {
            Some(n) => spec_uint_field(obj_view(v@), key@) == Some(n),
            None => spec_uint_field(obj_view(v@), key@) is None,
        },
{
    match obj_find(v, key) {
        Some(ix) => match &v[ix].1 {
            Json::UInt(n) => Some(*n),
            _ => None,
        },
        None => None,
    }
}

/// Decodes one tag from its JSON shape.
fn tag_from_json(j: &Json) -> (r: Option<Tag>)
    ensures
        match r {
            Some(t) => spec_tag_of_json(j@) == Some(t@),
            None => spec_tag_of_json(j@) is None,
        },
{
    match j {
        Json::Obj(m) => {
            let name_key = String::from_str("name");
            let value_key = String::from_str("value");
            match (get_str_field(m, &name_key), get_str_field(m, &value_key)) {
                (Some(n), Some(v)) => Some(Tag { name: n, value: v }),
                _ => None,
            }
        },
        _ => None,
    }
}

/// Decodes a tag sequence element by element.
fn tags_from_json(elems: &Vec<Json>) -> (r: Option<Vec<Tag>>)
    ensures
        match r {
            Some(ts) => spec_tags_of_json(arr_view(elems@)) == Some(
                ts@.map_values(|t: Tag| t@),
            ),
            None => spec_tags_of_json(arr_view(elems@)) is None,
        },
{
    let mut acc: Vec<Tag> = Vec::new();
    let mut k: usize = 0;
    proof {
        assert(arr_view(elems@).skip(0) =~= arr_view(elems@));
        assert(tags_join(acc@.map_values(|t: Tag| t@), spec_tags_of_json(arr_view(elems@)))
            == spec_tags_of_json(arr_view(elems@))) by {
            match spec_tags_of_json(arr_view(elems@)) {
                Some(rest) => {
                    assert(acc@.map_values(|t: Tag| t@) =~= Seq::<TagV>::empty());
                    assert(Seq::<TagV>::empty() + rest =~= rest);
                },
                None => {},
            }
        }
    }
    while k < elems.len()
        invariant
            k <= elems@.len(),
            spec_tags_of_json(arr_view(elems@)) == tags_join(
                acc@.map_values(|t: Tag| t@),
                spec_tags_of_json(arr_view(elems@).skip(k as int)),
            ),
        decreases elems@.len() - k,
    {
        let ghost rest = arr_view(elems@).skip(k as int);
        proof {
            assert(rest.len() > 0);
            assert(rest[0] == arr_view(elems@)[k as int]);
            assert(rest.drop_first() =~= arr_view(elems@).skip(k as int + 1));
        }
        match tag_from_json(&elems[k]) {
            Some(t) => {
                proof {
                    let pre = acc@.map_values(|t: Tag| t@);
                    match spec_tags_of_json(arr_view(elems@).skip(k as int + 1)) {
                        Some(su) => {
                            assert(acc@.push(t).map_values(|t: Tag| t@) =~= pre + seq![t@]);
                            assert(pre + (seq![t@] + su) =~= (pre + seq![t@]) + su);
                        },
                        None => {
                            assert(acc@.push(t).map_values(|t: Tag| t@) =~= pre + seq![t@]);
                        },
                    }
                }
                acc.push(t);
            },
            None => {
                return None;
            },
        }
        k = k + 1;
    }
    proof {
        assert(arr_view(elems@).skip(elems@.len() as int) =~= Seq::<JsonV>::empty());
        match spec_tags_of_json(arr_view(elems@)) {
            Some(rest) => {
                assert(acc@.map_values(|t: Tag| t@) + Seq::<TagV>::empty() =~= acc@.map_values(
                    |t: Tag| t@,
                ));
            },
            None => {},
        }
    }
    Some(acc)
}

/// A prefix of already-decoded tags joined onto the outcome of decoding
/// the rest.
spec fn tags_join(pre: Seq<TagV>, r: Option<Seq<TagV>>) -> Option<Seq<TagV>> {
    match r {
        Some(rest) => Some(pre + rest),
        None => None,
    }
}

/// A prefix of already-decoded bytes joined onto the outcome of decoding
/// the rest.
spec fn bytes_join(pre: Seq<u8>, r: Option<Seq<u8>>) -> Option<Seq<u8>> {
    match r {
        Some(rest) => Some(pre + rest),
        None => None,
    }
}

/// Decodes raw bytes from a JSON array of integers.
fn bytes_from_json(elems: &Vec<Json>) -> (r: Option<Vec<u8>>)
    ensures
        match r {
            Some(bs) => spec_bytes_of_json(arr_view(elems@)) == Some(bs@),
            None => spec_bytes_of_json(arr_view(elems@)) is None,
        },
{
    let mut acc: Vec<u8> = Vec::new();
    let mut k: usize = 0;
    proof {
        assert(arr_view(elems@).skip(0) =~= arr_view(elems@));
        assert(bytes_join(acc@, spec_bytes_of_json(arr_view(elems@))) == spec_bytes_of_json(
            arr_view(elems@),
        )) by {
            match spec_bytes_of_json(arr_view(elems@)) {
                Some(rest) => {
                    assert(Seq::<u8>::empty() + rest =~= rest);
                },
                None => {},
            }
        }
    }
    while k < elems.len()
        invariant
            k <= elems@.len(),
            spec_bytes_of_json(arr_view(elems@)) == bytes_join(
                acc@,
                spec_bytes_of_json(arr_view(elems@).skip(k as int)),
            ),
        decreases elems@.len() - k,
    {
        let ghost rest = arr_view(elems@).skip(k as int);
        proof {
            assert(rest.len() > 0);
            assert(rest[0] == arr_view(elems@)[k as int]);
            assert(rest.drop_first() =~= arr_view(elems@).skip(k as int + 1));
        }
        match &elems[k] {
            Json::UInt(n) => {
                if *n > 255 {
                    return None;
                }
                let b = *n as u8;
                proof {
                    match spec_bytes_of_json(arr_view(elems@).skip(k as int + 1)) {
                        Some(su) => {
                            assert(acc@ + (seq![b] + su) =~= acc@.push(b) + su);
                        },
                        None => {},
                    }
                }
                acc.push(b);
            },
            _ => {
                return None;
            },
        }
        k = k + 1;
    }
    proof {
        assert(arr_view(elems@).skip(elems@.len() as int) =~= Seq::<JsonV>::empty());
        match spec_bytes_of_json(arr_view(elems@)) {
            Some(rest) => {
                assert(acc@ + Seq::<u8>::empty() =~= acc@);
            },
            None => {},
        }
    }
    Some(acc)
}

/// Decodes a transaction record from a parsed JSON value.
pub fn tx_from_json(j: &Json) -> (r: Option<TransactionData>)
    ensures
        match r {
            Some(t) => spec_tx_of_json(j@) == Some(t@),
            None => spec_tx_of_json(j@) is None,
        },
{
    match j {
        Json::Obj(m) => {
            let tags_key = String::from_str("tags");
            let data_key = String::from_str("data");
            let tags = match obj_find(m, &tags_key) {
                Some(ix) => match &m[ix].1 {
                    Json::Arr(e) => tags_from_json(e),
                    _ => None,
                },
                None => None,
            };
            let data = match obj_find(m, &data_key) {
                Some(ix) => match &m[ix].1 {
                    Json::Arr(e) => bytes_from_json(e),
                    _ => None,
                },
                None => None,
            };
            let format = get_uint_field(m, &String::from_str("format"));
            let id = get_str_field(m, &String::from_str("id"));
            let last_tx = get_str_field(m, &String::from_str("last_tx"));
            let owner = get_str_field(m, &String::from_str("owner"));
            let target = get_str_field(m, &String::from_str("target"));
            let quantity = get_str_field(m, &String::from_str("quantity"));
            let reward = get_str_field(m, &String::from_str("reward"));
            let signature = get_str_field(m, &String::from_str("signature"));
            let data_size = get_str_field(m, &String::from_str("data_size"));
            let data_root = get_str_field(m, &String::from_str("data_root"));
            match (format, id, last_tx, owner, tags, target, quantity, data, reward, signature,
                data_size, data_root) {
                (Some(f), Some(id), Some(lt), Some(ow), Some(tg), Some(ta), Some(qu), Some(dt),
                    Some(rw), Some(sg), Some(ds), Some(dr)) => {
                    if f <= usize::MAX as u64 {
                        Some(TransactionData {
                            format: f as usize,
                            id: id,
                            last_tx: lt,
                            owner: ow,
                            tags: tg,
                            target: ta,
                            quantity: qu,
                            data: dt,
                            reward: rw,
                            signature: sg,
                            data_size: ds,
                            data_root: dr,
                        })
                    } else {
                        None
                    }
                },
                _ => None,
            }
        },
        _ => None,
    }
}

/// Decodes a confirmation record from a parsed JSON value.
fn conf_from_json(j: &Json) -> (r: Option<TransactionConfirmedData>)
    ensures
        match r {
            Some(c) => spec_conf_of_json(j@) == Some(c@),
            None => spec_conf_of_json(j@) is None,
        },
{
    match j {
        Json::Obj(m) => {
            let h = get_str_field(m, &String::from_str("block_indep_hash"));
            let bh = get_uint_field(m, &String::from_str("block_height"));
            let nc = get_uint_field(m, &String::from_str("number_of_confirmations"));
            match (h, bh, nc) {
                (Some(h), Some(bh), Some(nc)) => {
                    if bh <= usize::MAX as u64 && nc <= usize::MAX as u64 {
                        Some(TransactionConfirmedData {
                            block_indep_hash: h,
                            block_height: bh as usize,
                            number_of_confirmations: nc as usize,
                        })
                    } else {
                        None
                    }
                },
                _ => None,
            }
        },
        _ => None,
    }
}

/// Decodes a status record from a parsed JSON value.
pub fn status_from_json(j: &Json) -> (r: Option<TransactionStatusResponse>)
    ensures
        match r {
            Some(t) => spec_status_of_json(j@) == Some(t@),
            None => spec_status_of_json(j@) is None,
        },
{
    match j {
        Json::Obj(m) => {
            let conf_key = String::from_str("confirmed");
            let conf: Option<Option<TransactionConfirmedData>> = match obj_find(m, &conf_key) {
                None => Some(None),
                Some(ix) => match &m[ix].1 {
                    Json::Null => Some(None),
                    c => match conf_from_json(c) {
                        Some(cv) => Some(Some(cv)),
                        None => None,
                    },
                },
            };
            let st = get_uint_field(m, &String::from_str("status"));
            match (st, conf) {
                (Some(st), Some(cv)) => {
                    if st <= usize::MAX as u64 {
                        Some(TransactionStatusResponse { status: st as usize, confirmed: cv })
                    } else {
                        None
                    }
                },
                _ => None,
            }
        },
        _ => None,
    }
}


/// The JSON shape of a tag.
pub open spec fn spec_json_of_tag(t: TagV) -> JsonV {
    JsonV::Obj(seq![("name"@, JsonV::Str(t.name)), ("value"@, JsonV::Str(t.value))])
}

/// The JSON shape of a tag sequence.
pub open spec fn spec_jsons_of_tags(tags: Seq<TagV>) -> Seq<JsonV> {
    tags.map_values(|t: TagV| spec_json_of_tag(t))
}

/// The JSON shape of raw bytes: an array of integers.
pub open spec fn spec_jsons_of_bytes(d: Seq<u8>) -> Seq<JsonV> {
    d.map_values(|b: u8| JsonV::UInt(b as u64))
}

/// The JSON shape of a transaction record, members in the protocol's order.
pub open spec fn spec_json_of_tx(v: TransactionDataV) -> JsonV {
    JsonV::Obj(
        seq![
            ("format"@, JsonV::UInt(v.format as u64)),
            ("id"@, JsonV::Str(v.id)),
            ("last_tx"@, JsonV::Str(v.last_tx)),
            ("owner"@, JsonV::Str(v.owner)),
            ("tags"@, JsonV::Arr(spec_jsons_of_tags(v.tags))),
            ("target"@, JsonV::Str(v.target)),
            ("quantity"@, JsonV::Str(v.quantity)),
            ("data"@, JsonV::Arr(spec_jsons_of_bytes(v.data))),
            ("reward"@, JsonV::Str(v.reward)),
            ("signature"@, JsonV::Str(v.signature)),
            ("data_size"@, JsonV::Str(v.data_size)),
            ("data_root"@, JsonV::Str(v.data_root)),
        ],
    )
}

/// The JSON shape of a confirmation record.
pub open spec fn spec_json_of_conf(c: TransactionConfirmedDataV) -> JsonV {
    JsonV::Obj(
        seq![
            ("block_indep_hash"@, JsonV::Str(c.block_indep_hash)),
            ("block_height"@, JsonV::UInt(c.block_height as u64)),
            ("number_of_confirmations"@, JsonV::UInt(c.number_of_confirmations as u64)),
        ],
    )
}

/// The JSON shape of a status record; an absent confirmation is `null`.
pub open spec fn spec_json_of_status(v: TransactionStatusResponseV) -> JsonV {
    JsonV::Obj(
        seq![
            ("status"@, JsonV::UInt(v.status as u64)),
            (
                "confirmed"@,
                match v.confirmed {
                    Some(c) => spec_json_of_conf(c),
                    None => JsonV::Null,
                },
            ),
        ],
    )
}

/// The canonical text of a transaction record.
pub open spec fn spec_encode_tx(v: TransactionDataV) -> Seq<char> {
    spec_ser(spec_json_of_tx(v))
}

/// The canonical text of a status record.
pub open spec fn spec_encode_status(v: TransactionStatusResponseV) -> Seq<char> {
    spec_ser(spec_json_of_status(v))
}

/// Encodes one tag as its JSON shape.
fn tag_to_json(t: &Tag) -> (r: Json)
    ensures
        r@ == spec_json_of_tag(t@),
{
    let mut m: Vec<(String, Json)> = Vec::new();
    m.push((String::from_str("name"), Json::Str(copy_string(&t.name))));
    m.push((String::from_str("value"), Json::Str(copy_string(&t.value))));
    proof {
        assert(obj_view(m@) =~= seq![
            ("name"@, JsonV::Str(t.name@)),
            ("value"@, JsonV::Str(t.value@)),
        ]);
    }
    Json::Obj(m)
}

/// Encodes a tag sequence as its JSON shape.
fn tags_to_json(ts: &Vec<Tag>) -> (r: Vec<Json>)
    ensures
        arr_view(r@) == spec_jsons_of_tags(ts@.map_values(|t: Tag| t@)),
{
    let mut acc: Vec<Json> = Vec::new();
    let mut k: usize = 0;
    while k < ts.len()
        invariant
            k <= ts@.len(),
            acc@.len() == k,
            forall|i: int| 0 <= i < k ==> #[trigger] acc@[i]@ == spec_json_of_tag(ts@[i]@),
        decreases ts@.len() - k,
    {
        acc.push(tag_to_json(&ts[k]));
        k = k + 1;
    }
    proof {
        let tv = ts@.map_values(|t: Tag| t@);
        assert forall|i: int| 0 <= i < acc@.len() implies arr_view(acc@)[i] == spec_jsons_of_tags(
            tv,
        )[i] by {
            assert(acc@[i]@ == spec_json_of_tag(ts@[i]@));
            assert(tv[i] == ts@[i]@);
            assert(spec_jsons_of_tags(tv)[i] == spec_json_of_tag(tv[i]));
        }
        assert(arr_view(acc@) =~= spec_jsons_of_tags(tv));
    }
    acc
}

/// Encodes raw bytes as a JSON array of integers.
fn bytes_to_json(d: &Vec<u8>) -> (r: Vec<Json>)
    ensures
        arr_view(r@) == spec_jsons_of_bytes(d@),
{
    let mut acc: Vec<Json> = Vec::new();
    let mut k: usize = 0;
    while k < d.len()
        invariant
            k <= d@.len(),
            acc@.len() == k,
            forall|i: int| 0 <= i < k ==> #[trigger] acc@[i]@ == JsonV::UInt(d@[i] as u64),
        decreases d@.len() - k,
    {
        acc.push(Json::UInt(d[k] as u64));
        k = k + 1;
    }
    proof {
        assert forall|i: int| 0 <= i < acc@.len() implies arr_view(acc@)[i] == spec_jsons_of_bytes(
            d@,
        )[i] by {
            assert(acc@[i]@ == JsonV::UInt(d@[i] as u64));
            assert(spec_jsons_of_bytes(d@)[i] == JsonV::UInt(d@[i] as u64));
        }
        assert(arr_view(acc@) =~= spec_jsons_of_bytes(d@));
    }
    acc
}

/// Encodes a transaction record as its JSON shape.
pub fn tx_to_json(t: &TransactionData) -> (r: Json)
    ensures
        r@ == spec_json_of_tx(t@),
{
    let mut m: Vec<(String, Json)> = Vec::new();
    m.push((String::from_str("format"), Json::UInt(t.format as u64)));
    m.push((String::from_str("id"), Json::Str(copy_string(&t.id))));
    m.push((String::from_str("last_tx"), Json::Str(copy_string(&t.last_tx))));
    m.push((String::from_str("owner"), Json::Str(copy_string(&t.owner))));
    m.push((String::from_str("tags"), Json::Arr(tags_to_json(&t.tags))));
    m.push((String::from_str("target"), Json::Str(copy_string(&t.target))));
    m.push((String::from_str("quantity"), Json::Str(copy_string(&t.quantity))));
    m.push((String::from_str("data"), Json::Arr(bytes_to_json(&t.data))));
    m.push((String::from_str("reward"), Json::Str(copy_string(&t.reward))));
    m.push((String::from_str("signature"), Json::Str(copy_string(&t.signature))));
    m.push((String::from_str("data_size"), Json::Str(copy_string(&t.data_size))));
    m.push((String::from_str("data_root"), Json::Str(copy_string(&t.data_root))));
    proof {
        assert(obj_view(m@) =~= spec_json_of_tx(t@)->Obj_0);
    }
    Json::Obj(m)
}

/// Encodes a confirmation record as its JSON shape.
fn conf_to_json(c: &TransactionConfirmedData) -> (r: Json)
    ensures
        r@ == spec_json_of_conf(c@),
{
    let mut m: Vec<(String, Json)> = Vec::new();
    m.push((String::from_str("block_indep_hash"), Json::Str(copy_string(&c.block_indep_hash))));
    m.push((String::from_str("block_height"), Json::UInt(c.block_height as u64)));
    m.push((
        String::from_str("number_of_confirmations"),
        Json::UInt(c.number_of_confirmations as u64),
    ));
    proof {
        assert(obj_view(m@) =~= spec_json_of_conf(c@)->Obj_0);
    }
    Json::Obj(m)
}

/// Encodes a status record as its JSON shape.
pub fn status_to_json(t: &TransactionStatusResponse) -> (r: Json)
    ensures
        r@ == spec_json_of_status(t@),
{
    let mut m: Vec<(String, Json)> = Vec::new();
    m.push((String::from_str("status"), Json::UInt(t.status as u64)));
    let conf = match &t.confirmed {
        Some(c) => conf_to_json(c),
        None => Json::Null,
    };
    m.push((String::from_str("confirmed"), conf));
    proof {
        assert(obj_view(m@) =~= spec_json_of_status(t@)->Obj_0);
    }
    Json::Obj(m)
}

/// Writes a transaction record as canonical JSON text.
pub fn encode_transaction_data(t: &TransactionData) -> (r: String)
    ensures
        r@ == spec_encode_tx(t@),
{
    let j = tx_to_json(t);
    ser_json(&j)
}

/// Writes a status record as canonical JSON text.
pub fn encode_status_response(t: &TransactionStatusResponse) -> (r: String)
    ensures
        r@ == spec_encode_status(t@),
{
    let j = status_to_json(t);
    ser_json(&j)
}

/// The three outcomes of decoding a response body against an endpoint's
/// success schema: the typed payload, the gateway's own error payload, or
/// a body that matches neither shape.
pub enum Envelope<T> {
    Success(T),
    ServerError(String),
    Malformed,
}

/// The mathematical value of an `Envelope`.
pub enum EnvelopeV<T> {
    Success(T),
    ServerError(Seq<char>),
    Malformed,
}

impl<T: View> View for Envelope<T> {
    type V = EnvelopeV<T::V>;

    open spec fn view(&self) -> EnvelopeV<T::V> {
        match self {
            Envelope::Success(t) => EnvelopeV::Success(t.view()),
            Envelope::ServerError(p) => EnvelopeV::ServerError(p.view()),
            Envelope::Malformed => EnvelopeV::Malformed,
        }
    }
}

/// How a transaction body sorts into the three envelope outcomes: the
/// success shape wins; any other well-formed JSON object is taken as the
/// gateway's error payload; everything else is malformed.
pub open spec fn spec_tx_envelope(body: Seq<char>) -> EnvelopeV<TransactionDataV> {
    match spec_parse_json(body) {
        Some(j) => match spec_tx_of_json(j) {
            Some(t) => EnvelopeV::Success(t),
            None => if j is Obj {
                EnvelopeV::ServerError(body)
            } else {
                EnvelopeV::Malformed
            },
        },
        None => EnvelopeV::Malformed,
    }
}

/// The same envelope reading for a status body.
pub open spec fn spec_status_envelope(body: Seq<char>) -> EnvelopeV<TransactionStatusResponseV> {
    match spec_parse_json(body) {
        Some(j) => match spec_status_of_json(j) {
            Some(t) => EnvelopeV::Success(t),
            None => if j is Obj {
                EnvelopeV::ServerError(body)
            } else {
                EnvelopeV::Malformed
            },
        },
        None => EnvelopeV::Malformed,
    }
}

/// Decodes a transaction body as an envelope.
pub fn decode_tx_envelope(body: &str) -> (r: Envelope<TransactionData>)
    ensures
        r@ == spec_tx_envelope(body@),
{
    match parse_json(body) {
        Some(j) => match tx_from_json(&j) {
            Some(t) => Envelope::Success(t),
            None => match &j {
                Json::Obj(_) => Envelope::ServerError(String::from_str(body)),
                _ => Envelope::Malformed,
            },
        },
        None => Envelope::Malformed,
    }
}

/// Decodes a status body as an envelope.
pub fn decode_status_envelope(body: &str) -> (r: Envelope<TransactionStatusResponse>)
    ensures
        r@ == spec_status_envelope(body@),
{
    match parse_json(body) {
        Some(j) => match status_from_json(&j) {
            Some(t) => Envelope::Success(t),
            None => match &j {
                Json::Obj(_) => Envelope::ServerError(String::from_str(body)),
                _ => Envelope::Malformed,
            },
        },
        None => Envelope::Malformed,
    }
}


/// A tag's JSON shape decodes back to the same tag.
proof fn lemma_tag_round(t: TagV)
    ensures
        spec_tag_of_json(spec_json_of_tag(t)) == Some(t),
{
    reveal_strlit("name");
    reveal_strlit("value");
    let m = seq![("name"@, JsonV::Str(t.name)), ("value"@, JsonV::Str(t.value))];
    assert(spec_json_of_tag(t) == JsonV::Obj(m));
    assert(m[0].0 == "name"@ && m[1].0 == "value"@);
    assert(m[0].1 == JsonV::Str(t.name) && m[1].1 == JsonV::Str(t.value));
    let m1 = m.drop_first();
    assert(m1 =~= m.skip(1));
    assert(spec_obj_get(m, "name"@) == Some(m[0].1));
    assert(spec_obj_get(m, "value"@) == spec_obj_get(m1, "value"@));
    assert(spec_obj_get(m1, "value"@) == Some(m[1].1));
}

/// A tag sequence's JSON shape decodes back to the same sequence.
proof fn lemma_tags_round(tags: Seq<TagV>)
    ensures
        spec_tags_of_json(spec_jsons_of_tags(tags)) == Some(tags),
    decreases tags.len(),
{
    let js = spec_jsons_of_tags(tags);
    if tags.len() == 0 {
        assert(js.len() == 0);
        assert(Seq::<TagV>::empty() =~= tags);
    } else {
        lemma_tag_round(tags[0]);
        assert(js[0] == spec_json_of_tag(tags[0]));
        assert forall|i: int| 0 <= i < js.len() - 1 implies js.drop_first()[i]
            == spec_jsons_of_tags(tags.drop_first())[i] by {
            assert(js.drop_first()[i] == js[i + 1]);
            assert(js[i + 1] == spec_json_of_tag(tags[i + 1]));
            assert(tags.drop_first()[i] == tags[i + 1]);
        }
        assert(js.drop_first() =~= spec_jsons_of_tags(tags.drop_first()));
        lemma_tags_round(tags.drop_first());
        assert(seq![tags[0]] + tags.drop_first() =~= tags);
    }
}

/// A byte sequence's JSON shape decodes back to the same bytes.
proof fn lemma_bytes_round(d: Seq<u8>)
    ensures
        spec_bytes_of_json(spec_jsons_of_bytes(d)) == Some(d),
    decreases d.len(),
{
    let js = spec_jsons_of_bytes(d);
    if d.len() == 0 {
        assert(js.len() == 0);
        assert(Seq::<u8>::empty() =~= d);
    } else {
        assert(js[0] == JsonV::UInt(d[0] as u64));
        assert forall|i: int| 0 <= i < js.len() - 1 implies js.drop_first()[i]
            == spec_jsons_of_bytes(d.drop_first())[i] by {
            assert(js.drop_first()[i] == js[i + 1]);
            assert(js[i + 1] == JsonV::UInt(d[i + 1] as u64));
            assert(d.drop_first()[i] == d[i + 1]);
        }
        assert(js.drop_first() =~= spec_jsons_of_bytes(d.drop_first()));
        lemma_bytes_round(d.drop_first());
        assert(seq![d[0]] + d.drop_first() =~= d);
    }
}

/// A transaction record's JSON shape decodes back to the same record.
#[verifier::rlimit(100)]
#[verifier::spinoff_prover]
proof fn lemma_tx_round(v: TransactionDataV)
    ensures
        spec_tx_of_json(spec_json_of_tx(v)) == Some(v),
{
    reveal_strlit("format");
    reveal_strlit("id");
    reveal_strlit("last_tx");
    reveal_strlit("owner");
    reveal_strlit("tags");
    reveal_strlit("target");
    reveal_strlit("quantity");
    reveal_strlit("data");
    reveal_strlit("reward");
    reveal_strlit("signature");
    reveal_strlit("data_size");
    reveal_strlit("data_root");
    assert("format"@.len() != "id"@.len());
    assert("format"@ != "id"@);
    assert("format"@.len() != "last_tx"@.len());
    assert("format"@ != "last_tx"@);
    assert("format"@.len() != "owner"@.len());
    assert("format"@ != "owner"@);
    assert("format"@.len() != "tags"@.len());
    assert("format"@ != "tags"@);
    assert("format"@[0] != "target"@[0]);
    assert("format"@ != "target"@);
    assert("format"@.len() != "quantity"@.len());
    assert("format"@ != "quantity"@);
    assert("format"@.len() != "data"@.len());
    assert("format"@ != "data"@);
    assert("format"@[0] != "reward"@[0]);
    assert("format"@ != "reward"@);
    assert("format"@.len() != "signature"@.len());
    assert("format"@ != "signature"@);
    assert("format"@.len() != "data_size"@.len());
    assert("format"@ != "data_size"@);
    assert("format"@.len() != "data_root"@.len());
    assert("format"@ != "data_root"@);
    assert("id"@.len() != "last_tx"@.len());
    assert("id"@ != "last_tx"@);
    assert("id"@.len() != "owner"@.len());
    assert("id"@ != "owner"@);
    assert("id"@.len() != "tags"@.len());
    assert("id"@ != "tags"@);
    assert("id"@.len() != "target"@.len());
    assert("id"@ != "target"@);
    assert("id"@.len() != "quantity"@.len());
    assert("id"@ != "quantity"@);
    assert("id"@.len() != "data"@.len());
    assert("id"@ != "data"@);
    assert("id"@.len() != "reward"@.len());
    assert("id"@ != "reward"@);
    assert("id"@.len() != "signature"@.len());
    assert("id"@ != "signature"@);
    assert("id"@.len() != "data_size"@.len());
    assert("id"@ != "data_size"@);
    assert("id"@.len() != "data_root"@.len());
    assert("id"@ != "data_root"@);
    assert("last_tx"@.len() != "owner"@.len());
    assert("last_tx"@ != "owner"@);
    assert("last_tx"@.len() != "tags"@.len());
    assert("last_tx"@ != "tags"@);
    assert("last_tx"@.len() != "target"@.len());
    assert("last_tx"@ != "target"@);
    assert("last_tx"@.len() != "quantity"@.len());
    assert("last_tx"@ != "quantity"@);
    assert("last_tx"@.len() != "data"@.len());
    assert("last_tx"@ != "data"@);
    assert("last_tx"@.len() != "reward"@.len());
    assert("last_tx"@ != "reward"@);
    assert("last_tx"@.len() != "signature"@.len());
    assert("last_tx"@ != "signature"@);
    assert("last_tx"@.len() != "data_size"@.len());
    assert("last_tx"@ != "data_size"@);
    assert("last_tx"@.len() != "data_root"@.len());
    assert("last_tx"@ != "data_root"@);
    assert("owner"@.len() != "tags"@.len());
    assert("owner"@ != "tags"@);
    assert("owner"@.len() != "target"@.len());
    assert("owner"@ != "target"@);
    assert("owner"@.len() != "quantity"@.len());
    assert("owner"@ != "quantity"@);
    assert("owner"@.len() != "data"@.len());
    assert("owner"@ != "data"@);
    assert("owner"@.len() != "reward"@.len());
    assert("owner"@ != "reward"@);
    assert("owner"@.len() != "signature"@.len());
    assert("owner"@ != "signature"@);
    assert("owner"@.len() != "data_size"@.len());
    assert("owner"@ != "data_size"@);
    assert("owner"@.len() != "data_root"@.len());
    assert("owner"@ != "data_root"@);
    assert("tags"@.len() != "target"@.len());
    assert("tags"@ != "target"@);
    assert("tags"@.len() != "quantity"@.len());
    assert("tags"@ != "quantity"@);
    assert("tags"@[0] != "data"@[0]);
    assert("tags"@ != "data"@);
    assert("tags"@.len() != "reward"@.len());
    assert("tags"@ != "reward"@);
    assert("tags"@.len() != "signature"@.len());
    assert("tags"@ != "signature"@);
    assert("tags"@.len() != "data_size"@.len());
    assert("tags"@ != "data_size"@);
    assert("tags"@.len() != "data_root"@.len());
    assert("tags"@ != "data_root"@);
    assert("target"@.len() != "quantity"@.len());
    assert("target"@ != "quantity"@);
    assert("target"@.len() != "data"@.len());
    assert("target"@ != "data"@);
    assert("target"@[0] != "reward"@[0]);
    assert("target"@ != "reward"@);
    assert("target"@.len() != "signature"@.len());
    assert("target"@ != "signature"@);
    assert("target"@.len() != "data_size"@.len());
    assert("target"@ != "data_size"@);
    assert("target"@.len() != "data_root"@.len());
    assert("target"@ != "data_root"@);
    assert("quantity"@.len() != "data"@.len());
    assert("quantity"@ != "data"@);
    assert("quantity"@.len() != "reward"@.len());
    assert("quantity"@ != "reward"@);
    assert("quantity"@.len() != "signature"@.len());
    assert("quantity"@ != "signature"@);
    assert("quantity"@.len() != "data_size"@.len());
    assert("quantity"@ != "data_size"@);
    assert("quantity"@.len() != "data_root"@.len());
    assert("quantity"@ != "data_root"@);
    assert("data"@.len() != "reward"@.len());
    assert("data"@ != "reward"@);
    assert("data"@.len() != "signature"@.len());
    assert("data"@ != "signature"@);
    assert("data"@.len() != "data_size"@.len());
    assert("data"@ != "data_size"@);
    assert("data"@.len() != "data_root"@.len());
    assert("data"@ != "data_root"@);
    assert("reward"@.len() != "signature"@.len());
    assert("reward"@ != "signature"@);
    assert("reward"@.len() != "data_size"@.len());
    assert("reward"@ != "data_size"@);
    assert("reward"@.len() != "data_root"@.len());
    assert("reward"@ != "data_root"@);
    assert("signature"@[0] != "data_size"@[0]);
    assert("signature"@ != "data_size"@);
    assert("signature"@[0] != "data_root"@[0]);
    assert("signature"@ != "data_root"@);
    assert("data_size"@[5] != "data_root"@[5]);
    assert("data_size"@ != "data_root"@);
    let m = seq![("format"@, JsonV::UInt(v.format as u64)), ("id"@, JsonV::Str(v.id)), ("last_tx"@, JsonV::Str(v.last_tx)), ("owner"@, JsonV::Str(v.owner)), ("tags"@, JsonV::Arr(spec_jsons_of_tags(v.tags))), ("target"@, JsonV::Str(v.target)), ("quantity"@, JsonV::Str(v.quantity)), ("data"@, JsonV::Arr(spec_jsons_of_bytes(v.data))), ("reward"@, JsonV::Str(v.reward)), ("signature"@, JsonV::Str(v.signature)), ("data_size"@, JsonV::Str(v.data_size)), ("data_root"@, JsonV::Str(v.data_root))];
    assert(spec_json_of_tx(v) == JsonV::Obj(m));
    assert(m[0].0 == "format"@ && m[0].1 == (JsonV::UInt(v.format as u64)));
    assert(m[1].0 == "id"@ && m[1].1 == (JsonV::Str(v.id)));
    assert(m[2].0 == "last_tx"@ && m[2].1 == (JsonV::Str(v.last_tx)));
    assert(m[3].0 == "owner"@ && m[3].1 == (JsonV::Str(v.owner)));
    assert(m[4].0 == "tags"@ && m[4].1 == (JsonV::Arr(spec_jsons_of_tags(v.tags))));
    assert(m[5].0 == "target"@ && m[5].1 == (JsonV::Str(v.target)));
    assert(m[6].0 == "quantity"@ && m[6].1 == (JsonV::Str(v.quantity)));
    assert(m[7].0 == "data"@ && m[7].1 == (JsonV::Arr(spec_jsons_of_bytes(v.data))));
    assert(m[8].0 == "reward"@ && m[8].1 == (JsonV::Str(v.reward)));
    assert(m[9].0 == "signature"@ && m[9].1 == (JsonV::Str(v.signature)));
    assert(m[10].0 == "data_size"@ && m[10].1 == (JsonV::Str(v.data_size)));
    assert(m[11].0 == "data_root"@ && m[11].1 == (JsonV::Str(v.data_root)));
    let m1 = m.drop_first();
    let m2 = m1.drop_first();
    let m3 = m2.drop_first();
    let m4 = m3.drop_first();
    let m5 = m4.drop_first();
    let m6 = m5.drop_first();
    let m7 = m6.drop_first();
    let m8 = m7.drop_first();
    let m9 = m8.drop_first();
    let m10 = m9.drop_first();
    let m11 = m10.drop_first();
    assert(m1 =~= m.skip(1));
    assert(m2 =~= m.skip(2));
    assert(m3 =~= m.skip(3));
    assert(m4 =~= m.skip(4));
    assert(m5 =~= m.skip(5));
    assert(m6 =~= m.skip(6));
    assert(m7 =~= m.skip(7));
    assert(m8 =~= m.skip(8));
    assert(m9 =~= m.skip(9));
    assert(m10 =~= m.skip(10));
    assert(m11 =~= m.skip(11));
    assert(spec_obj_get(m, "format"@) == Some(m[0].1));
    assert(spec_obj_get(m, "id"@) == spec_obj_get(m1, "id"@));
    assert(spec_obj_get(m1, "id"@) == Some(m[1].1));
    assert(spec_obj_get(m, "last_tx"@) == spec_obj_get(m1, "last_tx"@));
    assert(spec_obj_get(m1, "last_tx"@) == spec_obj_get(m2, "last_tx"@));
    assert(spec_obj_get(m2, "last_tx"@) == Some(m[2].1));
    assert(spec_obj_get(m, "owner"@) == spec_obj_get(m1, "owner"@));
    assert(spec_obj_get(m1, "owner"@) == spec_obj_get(m2, "owner"@));
    assert(spec_obj_get(m2, "owner"@) == spec_obj_get(m3, "owner"@));
    assert(spec_obj_get(m3, "owner"@) == Some(m[3].1));
    assert(spec_obj_get(m, "tags"@) == spec_obj_get(m1, "tags"@));
    assert(spec_obj_get(m1, "tags"@) == spec_obj_get(m2, "tags"@));
    assert(spec_obj_get(m2, "tags"@) == spec_obj_get(m3, "tags"@));
    assert(spec_obj_get(m3, "tags"@) == spec_obj_get(m4, "tags"@));
    assert(spec_obj_get(m4, "tags"@) == Some(m[4].1));
    assert(spec_obj_get(m, "target"@) == spec_obj_get(m1, "target"@));
    assert(spec_obj_get(m1, "target"@) == spec_obj_get(m2, "target"@));
    assert(spec_obj_get(m2, "target"@) == spec_obj_get(m3, "target"@));
    assert(spec_obj_get(m3, "target"@) == spec_obj_get(m4, "target"@));
    assert(spec_obj_get(m4, "target"@) == spec_obj_get(m5, "target"@));
    assert(spec_obj_get(m5, "target"@) == Some(m[5].1));
    assert(spec_obj_get(m, "quantity"@) == spec_obj_get(m1, "quantity"@));
    assert(spec_obj_get(m1, "quantity"@) == spec_obj_get(m2, "quantity"@));
    assert(spec_obj_get(m2, "quantity"@) == spec_obj_get(m3, "quantity"@));
    assert(spec_obj_get(m3, "quantity"@) == spec_obj_get(m4, "quantity"@));
    assert(spec_obj_get(m4, "quantity"@) == spec_obj_get(m5, "quantity"@));
    assert(spec_obj_get(m5, "quantity"@) == spec_obj_get(m6, "quantity"@));
    assert(spec_obj_get(m6, "quantity"@) == Some(m[6].1));
    assert(spec_obj_get(m, "data"@) == spec_obj_get(m1, "data"@));
    assert(spec_obj_get(m1, "data"@) == spec_obj_get(m2, "data"@));
    assert(spec_obj_get(m2, "data"@) == spec_obj_get(m3, "data"@));
    assert(spec_obj_get(m3, "data"@) == spec_obj_get(m4, "data"@));
    assert(spec_obj_get(m4, "data"@) == spec_obj_get(m5, "data"@));
    assert(spec_obj_get(m5, "data"@) == spec_obj_get(m6, "data"@));
    assert(spec_obj_get(m6, "data"@) == spec_obj_get(m7, "data"@));
    assert(spec_obj_get(m7, "data"@) == Some(m[7].1));
    assert(spec_obj_get(m, "reward"@) == spec_obj_get(m1, "reward"@));
    assert(spec_obj_get(m1, "reward"@) == spec_obj_get(m2, "reward"@));
    assert(spec_obj_get(m2, "reward"@) == spec_obj_get(m3, "reward"@));
    assert(spec_obj_get(m3, "reward"@) == spec_obj_get(m4, "reward"@));
    assert(spec_obj_get(m4, "reward"@) == spec_obj_get(m5, "reward"@));
    assert(spec_obj_get(m5, "reward"@) == spec_obj_get(m6, "reward"@));
    assert(spec_obj_get(m6, "reward"@) == spec_obj_get(m7, "reward"@));
    assert(spec_obj_get(m7, "reward"@) == spec_obj_get(m8, "reward"@));
    assert(spec_obj_get(m8, "reward"@) == Some(m[8].1));
    assert(spec_obj_get(m, "signature"@) == spec_obj_get(m1, "signature"@));
    assert(spec_obj_get(m1, "signature"@) == spec_obj_get(m2, "signature"@));
    assert(spec_obj_get(m2, "signature"@) == spec_obj_get(m3, "signature"@));
    assert(spec_obj_get(m3, "signature"@) == spec_obj_get(m4, "signature"@));
    assert(spec_obj_get(m4, "signature"@) == spec_obj_get(m5, "signature"@));
    assert(spec_obj_get(m5, "signature"@) == spec_obj_get(m6, "signature"@));
    assert(spec_obj_get(m6, "signature"@) == spec_obj_get(m7, "signature"@));
    assert(spec_obj_get(m7, "signature"@) == spec_obj_get(m8, "signature"@));
    assert(spec_obj_get(m8, "signature"@) == spec_obj_get(m9, "signature"@));
    assert(spec_obj_get(m9, "signature"@) == Some(m[9].1));
    assert(spec_obj_get(m, "data_size"@) == spec_obj_get(m1, "data_size"@));
    assert(spec_obj_get(m1, "data_size"@) == spec_obj_get(m2, "data_size"@));
    assert(spec_obj_get(m2, "data_size"@) == spec_obj_get(m3, "data_size"@));
    assert(spec_obj_get(m3, "data_size"@) == spec_obj_get(m4, "data_size"@));
    assert(spec_obj_get(m4, "data_size"@) == spec_obj_get(m5, "data_size"@));
    assert(spec_obj_get(m5, "data_size"@) == spec_obj_get(m6, "data_size"@));
    assert(spec_obj_get(m6, "data_size"@) == spec_obj_get(m7, "data_size"@));
    assert(spec_obj_get(m7, "data_size"@) == spec_obj_get(m8, "data_size"@));
    assert(spec_obj_get(m8, "data_size"@) == spec_obj_get(m9, "data_size"@));
    assert(spec_obj_get(m9, "data_size"@) == spec_obj_get(m10, "data_size"@));
    assert(spec_obj_get(m10, "data_size"@) == Some(m[10].1));
    assert(spec_obj_get(m, "data_root"@) == spec_obj_get(m1, "data_root"@));
    assert(spec_obj_get(m1, "data_root"@) == spec_obj_get(m2, "data_root"@));
    assert(spec_obj_get(m2, "data_root"@) == spec_obj_get(m3, "data_root"@));
    assert(spec_obj_get(m3, "data_root"@) == spec_obj_get(m4, "data_root"@));
    assert(spec_obj_get(m4, "data_root"@) == spec_obj_get(m5, "data_root"@));
    assert(spec_obj_get(m5, "data_root"@) == spec_obj_get(m6, "data_root"@));
    assert(spec_obj_get(m6, "data_root"@) == spec_obj_get(m7, "data_root"@));
    assert(spec_obj_get(m7, "data_root"@) == spec_obj_get(m8, "data_root"@));
    assert(spec_obj_get(m8, "data_root"@) == spec_obj_get(m9, "data_root"@));
    assert(spec_obj_get(m9, "data_root"@) == spec_obj_get(m10, "data_root"@));
    assert(spec_obj_get(m10, "data_root"@) == spec_obj_get(m11, "data_root"@));
    assert(spec_obj_get(m11, "data_root"@) == Some(m[11].1));
    lemma_tags_round(v.tags);
    lemma_bytes_round(v.data);
}

/// A confirmation record's JSON shape decodes back to the same record.
proof fn lemma_conf_round(c: TransactionConfirmedDataV)
    ensures
        spec_conf_of_json(spec_json_of_conf(c)) == Some(c),
{
    reveal_strlit("block_indep_hash");
    reveal_strlit("block_height");
    reveal_strlit("number_of_confirmations");
    assert("block_indep_hash"@.len() != "block_height"@.len());
    assert("block_indep_hash"@ != "block_height"@);
    assert("block_indep_hash"@.len() != "number_of_confirmations"@.len());
    assert("block_indep_hash"@ != "number_of_confirmations"@);
    assert("block_height"@.len() != "number_of_confirmations"@.len());
    assert("block_height"@ != "number_of_confirmations"@);
    let m = seq![("block_indep_hash"@, JsonV::Str(c.block_indep_hash)), ("block_height"@, JsonV::UInt(c.block_height as u64)), ("number_of_confirmations"@, JsonV::UInt(c.number_of_confirmations as u64))];
    assert(spec_json_of_conf(c) == JsonV::Obj(m));
    assert(m[0].0 == "block_indep_hash"@ && m[0].1 == (JsonV::Str(c.block_indep_hash)));
    assert(m[1].0 == "block_height"@ && m[1].1 == (JsonV::UInt(c.block_height as u64)));
    assert(m[2].0 == "number_of_confirmations"@ && m[2].1 == (JsonV::UInt(c.number_of_confirmations as u64)));
    let m1 = m.drop_first();
    let m2 = m1.drop_first();
    assert(m1 =~= m.skip(1));
    assert(m2 =~= m.skip(2));
    assert(spec_obj_get(m, "block_indep_hash"@) == Some(m[0].1));
    assert(spec_obj_get(m, "block_height"@) == spec_obj_get(m1, "block_height"@));
    assert(spec_obj_get(m1, "block_height"@) == Some(m[1].1));
    assert(spec_obj_get(m, "number_of_confirmations"@) == spec_obj_get(m1, "number_of_confirmations"@));
    assert(spec_obj_get(m1, "number_of_confirmations"@) == spec_obj_get(m2, "number_of_confirmations"@));
    assert(spec_obj_get(m2, "number_of_confirmations"@) == Some(m[2].1));
}

/// A status record's JSON shape decodes back to the same record.
proof fn lemma_status_round(v: TransactionStatusResponseV)
    ensures
        spec_status_of_json(spec_json_of_status(v)) == Some(v),
{
    reveal_strlit("status");
    reveal_strlit("confirmed");
    assert("status"@.len() != "confirmed"@.len());
    assert("status"@ != "confirmed"@);
    let m = seq![("status"@, JsonV::UInt(v.status as u64)), ("confirmed"@, match v.confirmed { Some(c) => spec_json_of_conf(c), None => JsonV::Null })];
    assert(spec_json_of_status(v) == JsonV::Obj(m));
    assert(m[0].0 == "status"@ && m[0].1 == (JsonV::UInt(v.status as u64)));
    assert(m[1].0 == "confirmed"@ && m[1].1 == (match v.confirmed { Some(c) => spec_json_of_conf(c), None => JsonV::Null }));
    let m1 = m.drop_first();
    assert(m1 =~= m.skip(1));
    assert(spec_obj_get(m, "status"@) == Some(m[0].1));
    assert(spec_obj_get(m, "confirmed"@) == spec_obj_get(m1, "confirmed"@));
    assert(spec_obj_get(m1, "confirmed"@) == Some(m[1].1));
    match v.confirmed {
        Some(c) => {
            lemma_conf_round(c);
        },
        None => {},
    }
}

/// Encoding any transaction record as canonical text and decoding that
/// text yields the same record, field for field.
pub proof fn lemma_tx_encode_decode(v: TransactionDataV)
    ensures
        spec_decode_tx(spec_encode_tx(v)) == Some(v),
{
    crate::json::lemma_parse_ser_json(spec_json_of_tx(v));
    lemma_tx_round(v);
}

/// Decode, re-encode, decode is idempotent on transaction bodies: a body
/// that decodes to a record re-encodes to text that decodes to the very
/// same record.
pub proof fn lemma_tx_decode_reencode(body: Seq<char>, v: TransactionDataV)
    requires
        spec_decode_tx(body) == Some(v),
    ensures
        spec_decode_tx(spec_encode_tx(v)) == spec_decode_tx(body),
{
    lemma_tx_encode_decode(v);
}

/// Encoding any status record as canonical text and decoding that text
/// yields the same record.
pub proof fn lemma_status_encode_decode(v: TransactionStatusResponseV)
    ensures
        spec_decode_status(spec_encode_status(v)) == Some(v),
{
    crate::json::lemma_parse_ser_json(spec_json_of_status(v));
    lemma_status_round(v);
}


/// Decode, re-encode, decode is idempotent on status bodies as well.
pub proof fn lemma_status_decode_reencode(body: Seq<char>, v: TransactionStatusResponseV)
    requires
        spec_decode_status(body) == Some(v),
    ensures
        spec_decode_status(spec_encode_status(v)) == spec_decode_status(body),
{
    lemma_status_encode_decode(v);
}

} // verus!
