//! Extraction of named features from acoustic descriptor documents.
//! Numbers are carried as the bit patterns of doubles.
use vstd::prelude::*;
use crate::json::{member, text_of, Json};
use crate::sink::{sanitize, DiskZstdSink};
use crate::text::{decimal, owned, push_decimal, push_str};

verus! {

/// The bit pattern of the double `1.0`.
pub const ONE_BITS: u64 = 0x3FF0000000000000;

/// The bit pattern of the double `0.0`.
pub const ZERO_BITS: u64 = 0;

/// Named numeric features as plain values.
pub open spec fn num_view(v: Seq<(String, u64)>) -> Seq<(Seq<char>, u64)> {
    v.map_values(|p: (String, u64)| (p.0@, p.1))
}

/// Named text features as plain values.
pub open spec fn text_view(v: Seq<(String, String)>) -> Seq<(Seq<char>, Seq<char>)> {
    v.map_values(|p: (String, String)| (p.0@, p.1@))
}

/// The text feature of one classifier: its top label, under
/// `ab.highlevel.<classifier>.value`.
pub open spec fn hl_text_of(cls: Seq<char>, node: Json) -> Seq<(Seq<char>, Seq<char>)> {
    match text_of(member(node, "value"@)) {
        Some(v) => seq![("ab.highlevel."@ + sanitize(cls) + ".value"@, v)],
        None => seq![],
    }
}

/// The text features of the classifiers in `es`.
pub open spec fn hl_texts(es: Seq<(String, Json)>) -> Seq<(Seq<char>, Seq<char>)>
    decreases es.len(),
{
    if es.len() == 0 {
        seq![]
    } else {
        hl_texts(es.drop_last()) + hl_text_of(es.last().0@, es.last().1)
    }
}

/// The numeric feature of one label probability, under
/// `ab.highlevel.<classifier>.all.<label>`.
pub open spec fn hl_label_num(cls: Seq<char>, label: Seq<char>, p: Json) -> Seq<(Seq<char>, u64)> {
    match p {
        Json::Number(n) => seq![("ab.highlevel."@ + sanitize(cls) + ".all."@ + sanitize(label), n.float_bits)],
        _ => seq![],
    }
}

/// The numeric features of the label probabilities in `ls`.
pub open spec fn hl_label_nums(cls: Seq<char>, ls: Seq<(String, Json)>) -> Seq<(Seq<char>, u64)>
    decreases ls.len(),
{
    if ls.len() == 0 {
        seq![]
    } else {
        hl_label_nums(cls, ls.drop_last()) + hl_label_num(cls, ls.last().0@, ls.last().1)
    }
}

/// The numeric features of one classifier: one per label of its `all`.
pub open spec fn hl_num_of(cls: Seq<char>, node: Json) -> Seq<(Seq<char>, u64)> {
    match member(node, "all"@) {
        Some(Json::Object(ls)) => hl_label_nums(cls, ls@),
        _ => seq![],
    }
}

/// The numeric features of the classifiers in `es`.
pub open spec fn hl_nums(es: Seq<(String, Json)>) -> Seq<(Seq<char>, u64)>
    decreases es.len(),
{
    if es.len() == 0 {
        seq![]
    } else {
        hl_nums(es.drop_last()) + hl_num_of(es.last().0@, es.last().1)
    }
}

/// The classifiers of a high-level document: the entries of its
/// `highlevel` object, none when there is no such object.
pub open spec fn hl_classifiers(v: Json) -> Seq<(String, Json)> {
    match member(v, "highlevel"@) {
        Some(Json::Object(es)) => es@,
        _ => seq![],
    }
}

/// `a + sanitize(b) + c` as a string.
fn sanitized3(a: &str, b: &str, c: &str) -> (r: String)
    ensures
        r@ == a@ + sanitize(b@) + c@,
{
    let mut s = String::new();
    push_str(&mut s, a);
    let mid = DiskZstdSink::sanitize_key(b);
    push_str(&mut s, mid.as_str());
    push_str(&mut s, c);
    s
}

/// Appends the label features of one classifier.
fn push_label_nums(cls: &str, ls: &Vec<(String, Json)>, nums: &mut Vec<(String, u64)>)
    ensures
        num_view(final(nums)@) == num_view(old(nums)@) + hl_label_nums(cls@, ls@),
{
    let mut i: usize = 0;
    while i < ls.len()
        invariant
            i <= ls@.len(),
            num_view(nums@) == num_view(old(nums)@) + hl_label_nums(cls@, ls@.subrange(0, i as int)),
        decreases ls@.len() - i,
    {
        assert(ls@.subrange(0, i + 1).drop_last() =~= ls@.subrange(0, i as int));
        let ghost before = nums@;
        match &ls[i].1 {
            Json::Number(n) => {
                let prefix = sanitized3("ab.highlevel.", cls, ".all.");
                let label = DiskZstdSink::sanitize_key(ls[i].0.as_str());
                let mut name = prefix;
                push_str(&mut name, label.as_str());
                assert(name@ =~= "ab.highlevel."@ + sanitize(cls@) + ".all."@ + sanitize(ls@[i as int].0@));
                nums.push((name, n.float_bits));
                assert(num_view(nums@) =~= num_view(before) + hl_label_num(cls@, ls@[i as int].0@, ls@[i as int].1));
            },
            _ => {
                assert(num_view(nums@) =~= num_view(before) + hl_label_num(cls@, ls@[i as int].0@, ls@[i as int].1));
            },
        }
        i = i + 1;
        assert(num_view(nums@) =~= num_view(old(nums)@) + hl_label_nums(cls@, ls@.subrange(0, i as int)));
    }
    assert(ls@.subrange(0, i as int) =~= ls@);
}

impl DiskZstdSink {
    /// The features of a high-level document: per classifier, its label
    /// probabilities as numbers and its top label as text.
    pub fn extract_high_level(v: &Json) -> (r: (Vec<(String, u64)>, Vec<(String, String)>))
        ensures
            num_view(r.0@) == hl_nums(hl_classifiers(*v)),
            text_view(r.1@) == hl_texts(hl_classifiers(*v)),
    {
        let mut nums: Vec<(String, u64)> = Vec::new();
        let mut texts: Vec<(String, String)> = Vec::new();
        let es = match v.get("highlevel") {
            Some(Json::Object(es)) => es,
            _ => {
                assert(num_view(nums@) =~= seq![]);
                assert(text_view(texts@) =~= seq![]);
                return (nums, texts);
            },
        };
        let mut i: usize = 0;
        assert(num_view(nums@) =~= seq![]);
        assert(text_view(texts@) =~= seq![]);
        while i < es.len()
            invariant
                i <= es@.len(),
                hl_classifiers(*v) == es@,
                num_view(nums@) == hl_nums(es@.subrange(0, i as int)),
                text_view(texts@) == hl_texts(es@.subrange(0, i as int)),
            decreases es@.len() - i,
        {
            assert(es@.subrange(0, i + 1).drop_last() =~= es@.subrange(0, i as int));
            let cls = es[i].0.as_str();
            let node = &es[i].1;
            let ghost tb = texts@;
            match node.get("value") {
                Some(Json::Str(value)) => {
                    let name = sanitized3("ab.highlevel.", cls, ".value");
                    texts.push((name, value.clone()));
                    assert(text_view(texts@) =~= text_view(tb) + hl_text_of(es@[i as int].0@, es@[i as int].1));
                },
                _ => {
                    assert(text_view(texts@) =~= text_view(tb) + hl_text_of(es@[i as int].0@, es@[i as int].1));
                },
            }
            match node.get("all") {
                Some(Json::Object(ls)) => {
                    push_label_nums(cls, ls, &mut nums);
                },
                _ => {
                    assert(num_view(nums@) =~= num_view(nums@) + hl_num_of(es@[i as int].0@, es@[i as int].1));
                },
            }
            i = i + 1;
            assert(num_view(nums@) =~= hl_nums(es@.subrange(0, i as int)));
            assert(text_view(texts@) =~= hl_texts(es@.subrange(0, i as int)));
        }
        assert(es@.subrange(0, i as int) =~= es@);
        (nums, texts)
    }
}

/// The index segment of an array element: two digits at least, zero
/// padded.
pub open spec fn index_segment(i: nat) -> Seq<char> {
    if i < 10 {
        seq!['0'] + decimal(i)
    } else {
        decimal(i)
    }
}

/// The name prefix of member `k` under `prefix`; members of the root are
/// named under `ab.lowlevel`.
pub open spec fn member_prefix(prefix: Seq<char>, k: Seq<char>) -> Seq<char> {
    if prefix.len() == 0 {
        "ab.lowlevel."@ + sanitize(k)
    } else {
        prefix + "."@ + sanitize(k)
    }
}

/// The numeric leaves of `v` under `prefix`: numbers as themselves,
/// booleans as one or zero; arrays and objects are walked in order. A
/// name joins its sanitised segments with `.`.
pub open spec fn ll_flat(prefix: Seq<char>, v: Json) -> Seq<(Seq<char>, u64)>
    decreases v,
{
    match v {
        Json::Number(n) => seq![(prefix, n.float_bits)],
        Json::Bool(b) => seq![(prefix, if b {
            ONE_BITS
        } else {
            ZERO_BITS
        })],
        Json::Array(items) => ll_flat_items(prefix, items@),
        Json::Object(es) => ll_flat_entries(prefix, es@),
        _ => seq![],
    }
}

/// The numeric leaves of the array elements `items` under `prefix`.
pub open spec fn ll_flat_items(prefix: Seq<char>, items: Seq<Json>) -> Seq<(Seq<char>, u64)>
    decreases items,
{
    if items.len() == 0 {
        seq![]
    } else {
        ll_flat_items(prefix, items.drop_last()) + ll_flat(
            prefix + "."@ + index_segment((items.len() - 1) as nat),
            items.last(),
        )
    }
}

/// The numeric leaves of the object entries `es` under `prefix`.
pub open spec fn ll_flat_entries(prefix: Seq<char>, es: Seq<(String, Json)>) -> Seq<(Seq<char>, u64)>
    decreases es,
{
    if es.len() == 0 {
        seq![]
    } else {
        ll_flat_entries(prefix, es.drop_last()) + ll_flat(member_prefix(prefix, es.last().0@), es.last().1)
    }
}

/// `prefix.NN`: the name prefix of array element `i`.
fn element_prefix(prefix: &str, i: usize) -> (r: String)
    ensures
        r@ == prefix@ + "."@ + index_segment(i as nat),
{
    let mut s = String::new();
    push_str(&mut s, prefix);
    push_str(&mut s, ".");
    if i < 10 {
        push_str(&mut s, "0");
        proof {
            reveal_strlit("0");
        }
    }
    push_decimal(&mut s, i as u64);
    assert(s@ =~= prefix@ + "."@ + index_segment(i as nat));
    s
}

/// The name prefix of member `k` under `prefix`.
fn entry_prefix(prefix: &str, k: &str) -> (r: String)
    ensures
        r@ == member_prefix(prefix@, k@),
{
    let mut s = String::new();
    let key = DiskZstdSink::sanitize_key(k);
    if prefix.unicode_len() == 0 {
        push_str(&mut s, "ab.lowlevel.");
        push_str(&mut s, key.as_str());
    } else {
        push_str(&mut s, prefix);
        push_str(&mut s, ".");
        push_str(&mut s, key.as_str());
    }
    assert(s@ =~= member_prefix(prefix@, k@));
    s
}

/// Appends the numeric leaves of `v` under `prefix`.
fn flatten_low_level(prefix: &str, v: &Json, out: &mut Vec<(String, u64)>)
    ensures
        num_view(final(out)@) == num_view(old(out)@) + ll_flat(prefix@, *v),
    decreases *v,
{
    let ghost start = out@;
    match v {
        Json::Number(n) => {
            out.push((crate::text::owned(prefix), n.float_bits));
            assert(num_view(out@) =~= num_view(start) + ll_flat(prefix@, *v));
        },
        Json::Bool(b) => {
            let bits = if *b {
                ONE_BITS
            } else {
                ZERO_BITS
            };
            out.push((crate::text::owned(prefix), bits));
            assert(num_view(out@) =~= num_view(start) + ll_flat(prefix@, *v));
        },
        Json::Array(items) => {
            let mut i: usize = 0;
            assert(num_view(out@) =~= num_view(start) + ll_flat_items(prefix@, items@.subrange(0, 0)));
            while i < items.len()
                invariant
                    i <= items@.len(),
                    *v == Json::Array(*items),
                    num_view(out@) == num_view(start) + ll_flat_items(prefix@, items@.subrange(0, i as int)),
                decreases items@.len() - i,
            {
                assert(items@.subrange(0, i + 1).drop_last() =~= items@.subrange(0, i as int));
                let child = element_prefix(prefix, i);
                proof {
                    assert(decreases_to!(*v => (*v)->Array_0));
                    assert((*v)->Array_0 == *items);
                    assert(decreases_to!(*items => items@));
                    assert(decreases_to!(items@ => items@[i as int]));
                }
                flatten_low_level(child.as_str(), &items[i], out);
                i = i + 1;
                assert(num_view(out@) =~= num_view(start) + ll_flat_items(prefix@, items@.subrange(0, i as int)));
            }
            assert(items@.subrange(0, i as int) =~= items@);
        },
        Json::Object(es) => {
            let mut i: usize = 0;
            assert(num_view(out@) =~= num_view(start) + ll_flat_entries(prefix@, es@.subrange(0, 0)));
            while i < es.len()
                invariant
                    i <= es@.len(),
                    *v == Json::Object(*es),
                    num_view(out@) == num_view(start) + ll_flat_entries(prefix@, es@.subrange(0, i as int)),
                decreases es@.len() - i,
            {
                assert(es@.subrange(0, i + 1).drop_last() =~= es@.subrange(0, i as int));
                let child = entry_prefix(prefix, es[i].0.as_str());
                proof {
                    assert(decreases_to!(*v => (*v)->Object_0));
                    assert((*v)->Object_0 == *es);
                    assert(decreases_to!(*es => es@));
                    assert(decreases_to!(es@ => es@[i as int]));
                    assert(decreases_to!(es@[i as int] => es@[i as int].1));
                }
                flatten_low_level(child.as_str(), &es[i].1, out);
                i = i + 1;
                assert(num_view(out@) =~= num_view(start) + ll_flat_entries(prefix@, es@.subrange(0, i as int)));
            }
            assert(es@.subrange(0, i as int) =~= es@);
        },
        _ => {
            assert(num_view(out@) =~= num_view(start) + ll_flat(prefix@, *v));
        },
    }
}

/// The numeric features of a low-level document: the leaves of its
/// `lowlevel` member, none when it has no such member.
pub open spec fn ll_features(v: Json) -> Seq<(Seq<char>, u64)> {
    match member(v, "lowlevel"@) {
        Some(root) => ll_flat(Seq::empty(), root),
        None => seq![],
    }
}

impl DiskZstdSink {
    /// The numeric features of a low-level document, named by their paths.
    pub fn extract_low_level(v: &Json) -> (r: Vec<(String, u64)>)
        ensures
            num_view(r@) == ll_features(*v),
    {
        let mut out: Vec<(String, u64)> = Vec::new();
        match v.get("lowlevel") {
            Some(root) => {
                let empty = String::new();
                flatten_low_level(empty.as_str(), root, &mut out);
                assert(num_view(out@) =~= ll_features(*v));
            },
            None => {
                assert(num_view(out@) =~= ll_features(*v));
            },
        }
        out
    }
}

} // verus!
