//! The byte layout of a record in the index. Integers are eight bytes,
//! little-endian; a text is its UTF-8 length followed by its bytes; a
//! feature selection is a byte for its variant, followed for the variants
//! with extra names by their count and the names.
use crate::key::{feature_names, feature_rank, FeatureSet, Features, KeyModel, PkgKey, Version};
use crate::order::texts;
use crate::record::{CachedDocInfo, RecordModel};
use vstd::bytes::{
    lemma_auto_spec_u64_to_from_le_bytes, spec_u64_from_le_bytes, spec_u64_to_le_bytes,
    u64_from_le_bytes, u64_to_le_bytes,
};
use vstd::prelude::*;
use vstd::slice::slice_subrange;
use vstd::utf8::{
    decode_utf8, encode_utf8, encode_utf8_decode_utf8, encode_utf8_valid_utf8, valid_utf8,
};

verus! {

/// The bytes of a text: its UTF-8 length, then its UTF-8 bytes.
pub open spec fn text_bytes(t: Seq<char>) -> Seq<u8> {
    spec_u64_to_le_bytes(encode_utf8(t).len() as u64) + encode_utf8(t)
}

/// The bytes of the texts of `l`, one after the other.
pub open spec fn texts_bytes(l: Seq<Seq<char>>) -> Seq<u8>
    decreases l.len(),
{
    if l.len() == 0 {
        Seq::empty()
    } else {
        text_bytes(l[0]) + texts_bytes(l.drop_first())
    }
}

/// The bytes of a feature selection.
pub open spec fn features_bytes(f: FeatureSet) -> Seq<u8> {
    let tag = seq![feature_rank(f) as u8];
    match f {
        FeatureSet::DefaultPlus(names) => tag + spec_u64_to_le_bytes(names.len() as u64)
            + texts_bytes(names),
        FeatureSet::NoDefaultPlus(names) => tag + spec_u64_to_le_bytes(names.len() as u64)
            + texts_bytes(names),
        _ => tag,
    }
}

/// The bytes of a key: name, the three version numbers, features.
pub open spec fn key_bytes(k: KeyModel) -> Seq<u8> {
    text_bytes(k.name) + spec_u64_to_le_bytes(k.version.major) + spec_u64_to_le_bytes(
        k.version.minor,
    ) + spec_u64_to_le_bytes(k.version.patch) + features_bytes(k.features)
}

/// The bytes of a record: key, start time, documentation file.
pub open spec fn record_bytes(r: RecordModel) -> Seq<u8> {
    key_bytes(r.key) + spec_u64_to_le_bytes(r.started) + text_bytes(r.doc_file)
}

/// An integer at the front of `b`, and what follows it.
pub open spec fn parse_u64(b: Seq<u8>) -> Option<(u64, Seq<u8>)> {
    if b.len() >= 8 {
        Some((spec_u64_from_le_bytes(b.take(8)), b.skip(8)))
    } else {
        None
    }
}

/// A text at the front of `b`, and what follows it.
pub open spec fn parse_text(b: Seq<u8>) -> Option<(Seq<char>, Seq<u8>)> {
    match parse_u64(b) {
        Some((n, rest)) => if n <= rest.len() && valid_utf8(rest.take(n as int)) {
            Some((decode_utf8(rest.take(n as int)), rest.skip(n as int)))
        } else {
            None
        },
        None => None,
    }
}

/// `n` texts at the front of `b`, and what follows them.
pub open spec fn parse_texts(b: Seq<u8>, n: nat) -> Option<(Seq<Seq<char>>, Seq<u8>)>
    decreases n,
{
    if n == 0 {
        Some((Seq::empty(), b))
    } else {
        match parse_text(b) {
            Some((t, rest)) => match parse_texts(rest, (n - 1) as nat) {
                Some((l, rest2)) => Some((seq![t] + l, rest2)),
                None => None,
            },
            None => None,
        }
    }
}

/// A count of texts, then the texts, at the front of `b`.
pub open spec fn parse_names(b: Seq<u8>) -> Option<(Seq<Seq<char>>, Seq<u8>)> {
    match parse_u64(b) {
        Some((n, rest)) => parse_texts(rest, n as nat),
        None => None,
    }
}

/// A feature selection at the front of `b`, and what follows it.
pub open spec fn parse_features(b: Seq<u8>) -> Option<(FeatureSet, Seq<u8>)> {
    if b.len() == 0 {
        None
    } else {
        let rest = b.drop_first();
        if b[0] == 0 {
            Some((FeatureSet::Default, rest))
        } else if b[0] == 1 {
            Some((FeatureSet::All, rest))
        } else if b[0] == 3 {
            Some((FeatureSet::NoDefault, rest))
        } else if b[0] == 2 || b[0] == 4 {
            match parse_names(rest) {
                Some((names, rest2)) => if b[0] == 2 {
                    Some((FeatureSet::DefaultPlus(names), rest2))
                } else {
                    Some((FeatureSet::NoDefaultPlus(names), rest2))
                },
                None => None,
            }
        } else {
            None
        }
    }
}

/// A key at the front of `b`, and what follows it.
pub open spec fn parse_key(b: Seq<u8>) -> Option<(KeyModel, Seq<u8>)> {
    match parse_text(b) {
        Some((name, b1)) => match parse_u64(b1) {
            Some((major, b2)) => match parse_u64(b2) {
                Some((minor, b3)) => match parse_u64(b3) {
                    Some((patch, b4)) => match parse_features(b4) {
                        Some((features, b5)) => Some(
                            (
                                KeyModel {
                                    name,
                                    version: Version { major, minor, patch },
                                    features,
                                },
                                b5,
                            ),
                        ),
                        None => None,
                    },
                    None => None,
                },
                None => None,
            },
            None => None,
        },
        None => None,
    }
}

/// The record that `b` holds, with nothing after it.
pub open spec fn parse_record(b: Seq<u8>) -> Option<RecordModel> {
    match parse_key(b) {
        Some((key, b1)) => match parse_u64(b1) {
            Some((started, b2)) => match parse_text(b2) {
                Some((doc_file, b3)) => if b3.len() == 0 {
                    Some(RecordModel { key, started, doc_file })
                } else {
                    None
                },
                None => None,
            },
            None => None,
        },
        None => None,
    }
}

/// The lengths that the layout writes fit in eight bytes.
pub open spec fn text_fits(t: Seq<char>) -> bool {
    encode_utf8(t).len() <= u64::MAX
}

pub open spec fn names_fit(l: Seq<Seq<char>>) -> bool {
    l.len() <= u64::MAX && forall|i: int| 0 <= i < l.len() ==> text_fits(#[trigger] l[i])
}

pub open spec fn key_fits(k: KeyModel) -> bool {
    text_fits(k.name) && names_fit(feature_names(k.features))
}

/// A record whose texts and lists are short enough for the layout, as the
/// records of a running program are.
pub open spec fn record_fits(r: RecordModel) -> bool {
    key_fits(r.key) && text_fits(r.doc_file)
}

proof fn lemma_parse_u64(n: u64, rest: Seq<u8>)
    ensures
        parse_u64(spec_u64_to_le_bytes(n) + rest) == Some((n, rest)),
{
    lemma_auto_spec_u64_to_from_le_bytes();
    let b = spec_u64_to_le_bytes(n) + rest;
    assert(b.take(8) =~= spec_u64_to_le_bytes(n));
    assert(b.skip(8) =~= rest);
}

proof fn lemma_parse_text(t: Seq<char>, rest: Seq<u8>)
    requires
        text_fits(t),
    ensures
        parse_text(text_bytes(t) + rest) == Some((t, rest)),
{
    let e = encode_utf8(t);
    let b = text_bytes(t) + rest;
    assert(b =~= spec_u64_to_le_bytes(e.len() as u64) + (e + rest));
    lemma_parse_u64(e.len() as u64, e + rest);
    assert((e + rest).take(e.len() as int) =~= e);
    assert((e + rest).skip(e.len() as int) =~= rest);
    encode_utf8_valid_utf8(t);
    encode_utf8_decode_utf8(t);
}

proof fn lemma_parse_texts(l: Seq<Seq<char>>, rest: Seq<u8>)
    requires
        forall|i: int| 0 <= i < l.len() ==> text_fits(#[trigger] l[i]),
    ensures
        parse_texts(texts_bytes(l) + rest, l.len()) == Some((l, rest)),
    decreases l.len(),
{
    if l.len() > 0 {
        let tail = l.drop_first();
        assert(text_fits(l[0]));
        assert forall|i: int| 0 <= i < tail.len() implies text_fits(#[trigger] tail[i]) by {
            assert(tail[i] == l[i + 1]);
        }
        lemma_parse_texts(tail, rest);
        let b = texts_bytes(l) + rest;
        assert(b =~= text_bytes(l[0]) + (texts_bytes(tail) + rest));
        lemma_parse_text(l[0], texts_bytes(tail) + rest);
        assert(seq![l[0]] + tail =~= l);
    }
}

proof fn lemma_parse_features(f: FeatureSet, rest: Seq<u8>)
    requires
        names_fit(feature_names(f)),
    ensures
        parse_features(features_bytes(f) + rest) == Some((f, rest)),
{
    let b = features_bytes(f) + rest;
    let tag = seq![feature_rank(f) as u8];
    match f {
        FeatureSet::DefaultPlus(names) => {
            let count = spec_u64_to_le_bytes(names.len() as u64);
            assert(b =~= tag + (count + (texts_bytes(names) + rest)));
            assert(b.drop_first() =~= count + (texts_bytes(names) + rest));
            lemma_parse_u64(names.len() as u64, texts_bytes(names) + rest);
            lemma_parse_texts(names, rest);
        },
        FeatureSet::NoDefaultPlus(names) => {
            let count = spec_u64_to_le_bytes(names.len() as u64);
            assert(b =~= tag + (count + (texts_bytes(names) + rest)));
            assert(b.drop_first() =~= count + (texts_bytes(names) + rest));
            lemma_parse_u64(names.len() as u64, texts_bytes(names) + rest);
            lemma_parse_texts(names, rest);
        },
        _ => {
            assert(b.drop_first() =~= rest);
        },
    }
}

proof fn lemma_parse_key(k: KeyModel, rest: Seq<u8>)
    requires
        key_fits(k),
    ensures
        parse_key(key_bytes(k) + rest) == Some((k, rest)),
{
    let f = features_bytes(k.features) + rest;
    let b4 = f;
    let b3 = spec_u64_to_le_bytes(k.version.patch) + b4;
    let b2 = spec_u64_to_le_bytes(k.version.minor) + b3;
    let b1 = spec_u64_to_le_bytes(k.version.major) + b2;
    assert(key_bytes(k) + rest =~= text_bytes(k.name) + b1);
    lemma_parse_text(k.name, b1);
    lemma_parse_u64(k.version.major, b2);
    lemma_parse_u64(k.version.minor, b3);
    lemma_parse_u64(k.version.patch, b4);
    lemma_parse_features(k.features, rest);
}

/// Reading a record's bytes gives the record back.
pub proof fn lemma_record_round_trip(r: RecordModel)
    requires
        record_fits(r),
    ensures
        parse_record(record_bytes(r)) == Some(r),
{
    let empty = Seq::<u8>::empty();
    let b2 = text_bytes(r.doc_file);
    let b1 = spec_u64_to_le_bytes(r.started) + b2;
    assert(record_bytes(r) =~= key_bytes(r.key) + b1);
    lemma_parse_key(r.key, b1);
    lemma_parse_u64(r.started, b2);
    assert(b2 =~= b2 + empty);
    lemma_parse_text(r.doc_file, empty);
}

proof fn lemma_texts_bytes_push(l: Seq<Seq<char>>, t: Seq<char>)
    ensures
        texts_bytes(l.push(t)) == texts_bytes(l) + text_bytes(t),
    decreases l.len(),
{
    if l.len() == 0 {
        assert(l.push(t).drop_first() =~= Seq::<Seq<char>>::empty());
        assert(texts_bytes(Seq::<Seq<char>>::empty()) == Seq::<u8>::empty());
        assert(l.push(t)[0] == t);
        assert(texts_bytes(l.push(t)) =~= text_bytes(t) + Seq::<u8>::empty());
    } else {
        lemma_texts_bytes_push(l.drop_first(), t);
        assert(l.push(t).drop_first() =~= l.drop_first().push(t));
        assert(texts_bytes(l.push(t)) =~= texts_bytes(l) + text_bytes(t));
    }
}

/// Relies on `String::from_utf8`: it accepts every valid UTF-8 byte
/// string, and the string it gives holds exactly those bytes.
#[verifier::external_body]
fn utf8_string(bytes: &[u8]) -> (r: Option<String>)
    ensures
        valid_utf8(bytes@) ==> r is Some,
        r is Some ==> encode_utf8(r->Some_0@) == bytes@,
{
    String::from_utf8(bytes.to_vec()).ok()
}

fn push_bytes(out: &mut Vec<u8>, b: &[u8])
    ensures
        final(out)@ == old(out)@ + b@,
{
    let mut i: usize = 0;
    while i < b.len()
        invariant
            i <= b@.len(),
            out@ == old(out)@ + b@.take(i as int),
        decreases b@.len() - i,
    {
        out.push(b[i]);
        i = i + 1;
        assert(out@ =~= old(out)@ + b@.take(i as int));
    }
    assert(b@.take(b@.len() as int) =~= b@);
}

fn push_u64(out: &mut Vec<u8>, n: u64)
    ensures
        final(out)@ == old(out)@ + spec_u64_to_le_bytes(n),
{
    let b = u64_to_le_bytes(n);
    push_bytes(out, b.as_slice());
}

fn push_text(out: &mut Vec<u8>, t: &str)
    ensures
        final(out)@ == old(out)@ + text_bytes(t@),
{
    let b = t.as_bytes();
    push_u64(out, b.len() as u64);
    push_bytes(out, b);
    assert(final(out)@ =~= old(out)@ + text_bytes(t@));
}

fn push_names(out: &mut Vec<u8>, names: &Vec<String>)
    ensures
        final(out)@ == old(out)@ + spec_u64_to_le_bytes(names@.len() as u64) + texts_bytes(
            texts(names@),
        ),
{
    push_u64(out, names.len() as u64);
    let ghost start = out@;
    let mut i: usize = 0;
    while i < names.len()
        invariant
            i <= names@.len(),
            out@ == start + texts_bytes(texts(names@).take(i as int)),
        decreases names@.len() - i,
    {
        proof {
            lemma_texts_bytes_push(texts(names@).take(i as int), names@[i as int]@);
            assert(texts(names@).take(i + 1) =~= texts(names@).take(i as int).push(
                names@[i as int]@,
            ));
        }
        push_text(out, names[i].as_str());
        i = i + 1;
    }
    assert(texts(names@).take(names@.len() as int) =~= texts(names@));
}

fn push_features(out: &mut Vec<u8>, f: &Features)
    ensures
        final(out)@ == old(out)@ + features_bytes(f@),
{
    match f {
        Features::Default => out.push(0),
        Features::All => out.push(1),
        Features::DefaultPlus(names) => {
            out.push(2);
            push_names(out, names);
        },
        Features::NoDefault => out.push(3),
        Features::NoDefaultPlus(names) => {
            out.push(4);
            push_names(out, names);
        },
    }
    assert(final(out)@ =~= old(out)@ + features_bytes(f@));
}

fn push_key(out: &mut Vec<u8>, k: &PkgKey)
    ensures
        final(out)@ == old(out)@ + key_bytes(k@),
{
    let v = k.version();
    push_text(out, k.name());
    push_u64(out, v.major);
    push_u64(out, v.minor);
    push_u64(out, v.patch);
    push_features(out, k.features());
    assert(final(out)@ =~= old(out)@ + key_bytes(k@));
}

/// The bytes under which the index stores `info`.
pub fn encode_record(info: &CachedDocInfo) -> (r: Vec<u8>)
    ensures
        r@ == record_bytes(info@),
{
    let mut out: Vec<u8> = Vec::new();
    push_key(&mut out, info.pkg());
    push_u64(&mut out, info.started_time());
    push_text(&mut out, info.doc_file());
    assert(out@ =~= record_bytes(info@));
    out
}

/// `r` is what reading an integer at `pos` of `b` gives: the value and the
/// position after it, as `parse_u64` says.
pub open spec fn u64_read(b: Seq<u8>, pos: int, r: Option<(u64, usize)>) -> bool {
    match r {
        None => parse_u64(b.skip(pos)) is None,
        Some((n, p)) => p <= b.len() && parse_u64(b.skip(pos)) == Some((n, b.skip(p as int))),
    }
}

pub open spec fn text_read(b: Seq<u8>, pos: int, r: Option<(String, usize)>) -> bool {
    match r {
        None => parse_text(b.skip(pos)) is None,
        Some((t, p)) => p <= b.len() && parse_text(b.skip(pos)) == Some((t@, b.skip(p as int))),
    }
}

/// What `n` more texts read after the texts `l` give.
pub open spec fn after_texts(l: Seq<Seq<char>>, more: Option<(Seq<Seq<char>>, Seq<u8>)>) -> Option<
    (Seq<Seq<char>>, Seq<u8>),
> {
    match more {
        Some((l2, rest)) => Some((l + l2, rest)),
        None => None,
    }
}

pub open spec fn names_read(b: Seq<u8>, pos: int, r: Option<(Vec<String>, usize)>) -> bool {
    match r {
        None => parse_names(b.skip(pos)) is None,
        Some((v, p)) => p <= b.len() && parse_names(b.skip(pos)) == Some(
            (texts(v@), b.skip(p as int)),
        ),
    }
}

pub open spec fn features_read(b: Seq<u8>, pos: int, r: Option<(Features, usize)>) -> bool {
    match r {
        None => parse_features(b.skip(pos)) is None,
        Some((f, p)) => p <= b.len() && parse_features(b.skip(pos)) == Some((f@, b.skip(p as int))),
    }
}

pub open spec fn key_read(b: Seq<u8>, pos: int, r: Option<(PkgKey, usize)>) -> bool {
    match r {
        None => parse_key(b.skip(pos)) is None,
        Some((k, p)) => p <= b.len() && parse_key(b.skip(pos)) == Some((k@, b.skip(p as int))),
    }
}

fn read_u64(b: &[u8], pos: usize) -> (r: Option<(u64, usize)>)
    requires
        pos <= b@.len(),
    ensures
        u64_read(b@, pos as int, r),
{
    if b.len() - pos < 8 {
        return None;
    }
    let sub = slice_subrange(b, pos, pos + 8);
    let n = u64_from_le_bytes(sub);
    assert(b@.skip(pos as int).take(8) =~= sub@);
    assert(b@.skip(pos as int).skip(8) =~= b@.skip(pos + 8));
    Some((n, pos + 8))
}

fn read_text(b: &[u8], pos: usize) -> (r: Option<(String, usize)>)
    requires
        pos <= b@.len(),
    ensures
        text_read(b@, pos as int, r),
{
    let (n, p) = match read_u64(b, pos) {
        Some(x) => x,
        None => {
            return None;
        },
    };
    if n > (b.len() - p) as u64 {
        return None;
    }
    let e = p + n as usize;
    let sub = slice_subrange(b, p, e);
    let ghost rest = b@.skip(p as int);
    assert(rest.take(n as int) =~= sub@);
    assert(rest.skip(n as int) =~= b@.skip(e as int));
    match utf8_string(sub) {
        Some(t) => {
            proof {
                encode_utf8_valid_utf8(t@);
                encode_utf8_decode_utf8(t@);
            }
            Some((t, e))
        },
        None => None,
    }
}

fn read_names(b: &[u8], pos: usize) -> (r: Option<(Vec<String>, usize)>)
    requires
        pos <= b@.len(),
    ensures
        names_read(b@, pos as int, r),
{
    let (n, start) = match read_u64(b, pos) {
        Some(x) => x,
        None => {
            return None;
        },
    };
    let ghost whole = parse_texts(b@.skip(start as int), n as nat);
    assert(parse_names(b@.skip(pos as int)) == whole);
    let mut v: Vec<String> = Vec::new();
    let mut p: usize = start;
    let mut i: u64 = 0;
    assert(texts(v@) + Seq::<Seq<char>>::empty() =~= Seq::<Seq<char>>::empty());
    while i < n
        invariant
            i <= n,
            p <= b@.len(),
            whole == parse_texts(b@.skip(start as int), n as nat),
            parse_names(b@.skip(pos as int)) == whole,
            whole == after_texts(texts(v@), parse_texts(b@.skip(p as int), (n - i) as nat)),
        decreases n - i,
    {
        let (t, q) = match read_text(b, p) {
            Some(x) => x,
            None => {
                assert(parse_texts(b@.skip(p as int), (n - i) as nat) is None);
                assert(whole is None);
                return None;
            },
        };
        proof {
            let tail = parse_texts(b@.skip(q as int), (n - i - 1) as nat);
            assert(texts(v@.push(t)) =~= texts(v@).push(t@));
            match tail {
                Some((l2, r2)) => {
                    assert(texts(v@) + (seq![t@] + l2) =~= texts(v@).push(t@) + l2);
                },
                None => {},
            }
        }
        v.push(t);
        p = q;
        i = i + 1;
    }
    assert(texts(v@) + Seq::<Seq<char>>::empty() =~= texts(v@));
    Some((v, p))
}

fn read_features(b: &[u8], pos: usize) -> (r: Option<(Features, usize)>)
    requires
        pos <= b@.len(),
    ensures
        features_read(b@, pos as int, r),
{
    if pos == b.len() {
        return None;
    }
    let tag = b[pos];
    assert(b@.skip(pos as int).drop_first() =~= b@.skip(pos + 1));
    if tag == 0 {
        Some((Features::Default, pos + 1))
    } else if tag == 1 {
        Some((Features::All, pos + 1))
    } else if tag == 3 {
        Some((Features::NoDefault, pos + 1))
    } else if tag == 2 || tag == 4 {
        match read_names(b, pos + 1) {
            Some((names, p)) => if tag == 2 {
                Some((Features::DefaultPlus(names), p))
            } else {
                Some((Features::NoDefaultPlus(names), p))
            },
            None => None,
        }
    } else {
        None
    }
}

fn read_key(b: &[u8], pos: usize) -> (r: Option<(PkgKey, usize)>)
    requires
        pos <= b@.len(),
    ensures
        key_read(b@, pos as int, r),
{
    let (name, p1) = match read_text(b, pos) {
        Some(x) => x,
        None => {
            return None;
        },
    };
    let (major, p2) = match read_u64(b, p1) {
        Some(x) => x,
        None => {
            return None;
        },
    };
    let (minor, p3) = match read_u64(b, p2) {
        Some(x) => x,
        None => {
            return None;
        },
    };
    let (patch, p4) = match read_u64(b, p3) {
        Some(x) => x,
        None => {
            return None;
        },
    };
    let (features, p5) = match read_features(b, p4) {
        Some(x) => x,
        None => {
            return None;
        },
    };
    Some((PkgKey::new(name, Version::new(major, minor, patch), features), p5))
}

/// Reads a record from the bytes the index stores for it: there is one
/// exactly when `parse_record` finds one, and it is that record.
pub fn decode_record(b: &[u8]) -> (r: Option<CachedDocInfo>)
    ensures
        r is None <==> parse_record(b@) is None,
        r is Some ==> parse_record(b@) == Some(r->Some_0@),
{
    assert(b@.skip(0) =~= b@);
    let (key, p1) = match read_key(b, 0) {
        Some(x) => x,
        None => {
            return None;
        },
    };
    let (started, p2) = match read_u64(b, p1) {
        Some(x) => x,
        None => {
            return None;
        },
    };
    let (doc_file, p3) = match read_text(b, p2) {
        Some(x) => x,
        None => {
            return None;
        },
    };
    if p3 != b.len() {
        return None;
    }
    Some(CachedDocInfo::new(key, started, doc_file))
}

} // verus!
