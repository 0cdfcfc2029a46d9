//! The atom file: named atoms written out as bytes, and read back.
//!
//! A file is the four bytes `ATOM`, the number of entries as a 32-bit
//! value, then each entry: its name as a string, then its atom.
use vstd::prelude::*;
use vstd::utf8::encode_utf8;

use crate::atom::{AtomModel, AtomTag, ErrorModel};
use crate::bytecode::{
    law_str_read_after_write, law_u32_read_after_write, law_u64_read_after_write, le16, le32,
    le64, spec_fetch_str, spec_fetch_str_rest, str_bytes, Readable, Writable,
};
use crate::env::entries_map;

verus! {

/// The bytes `ATOM` that open an atom file.
pub open spec fn magic() -> Seq<u8> {
    seq![65u8, 84u8, 79u8, 77u8]
}

/// The bytes an atom is written as: its tag byte, then a number's eight
/// bytes, a blob's length cut to 16 bits and its bytes, or a pair's head
/// and tail. A string is written as a string behind the tag byte of a
/// pair.
pub open spec fn spec_serialize(a: AtomModel) -> Seq<u8>
    decreases a,
{
    match a {
        AtomModel::Nil => seq![AtomTag::Nil.spec_byte()],
        AtomModel::Num(n) => seq![AtomTag::Num.spec_byte()] + le64(n),
        AtomModel::Blob(b) => seq![AtomTag::Blob.spec_byte()] + le16(b.len() as u16) + b,
        AtomModel::Cons(h, t) => seq![AtomTag::Cons.spec_byte()] + spec_serialize(*h)
            + spec_serialize(*t),
        AtomModel::Str(s) => seq![AtomTag::Cons.spec_byte()] + str_bytes(s),
    }
}

/// Reading an atom from the front of `d`: what is read, and the bytes
/// left. A blob's length is read as a 32-bit value.
pub open spec fn spec_deserialize(d: Seq<u8>) -> (Result<AtomModel, ErrorModel>, Seq<u8>)
    decreases d.len(),
{
    if d.len() == 0 {
        (Err(ErrorModel::MalformedBytecode), d)
    } else {
        let r = d.skip(1);
        match AtomTag::spec_from_byte(d[0]) {
            None => (Err(ErrorModel::MalformedBytecode), r),
            Some(AtomTag::Nil) => (Ok(AtomModel::Nil), r),
            Some(AtomTag::Num) => if r.len() < 8 {
                (Err(ErrorModel::MalformedBytecode), r)
            } else {
                (Ok(AtomModel::Num(u64::spec_from_bytes(r.take(8)))), r.skip(8))
            },
            Some(AtomTag::Str) => match spec_fetch_str(r) {
                Ok(s) => (Ok(AtomModel::Str(s)), spec_fetch_str_rest(r)),
                Err(e) => (Err(e), spec_fetch_str_rest(r)),
            },
            Some(AtomTag::Cons) => {
                let (h, r1) = spec_deserialize(r);
                match h {
                    Err(e) => (Err(e), r1),
                    Ok(h) => if r1.len() < d.len() {
                        let (t, r2) = spec_deserialize(r1);
                        match t {
                            Err(e) => (Err(e), r2),
                            Ok(t) => (Ok(AtomModel::Cons(Box::new(h), Box::new(t))), r2),
                        }
                    } else {
                        (Err(ErrorModel::MalformedBytecode), r1)
                    },
                }
            },
            Some(AtomTag::Blob) => if r.len() < 4 {
                (Err(ErrorModel::MalformedBytecode), r)
            } else {
                let n = u32::spec_from_bytes(r.take(4)) as int;
                let r4 = r.skip(4);
                if r4.len() < n {
                    (Err(ErrorModel::MalformedBytecode), r4)
                } else {
                    (Ok(AtomModel::Blob(r4.take(n))), r4.skip(n))
                }
            },
        }
    }
}

/// The bytes of one entry: its name, then its atom.
pub open spec fn entry_bytes(e: (Seq<char>, AtomModel)) -> Seq<u8> {
    str_bytes(e.0) + spec_serialize(e.1)
}

/// The bytes of the entries, in order.
pub open spec fn entries_bytes(es: Seq<(Seq<char>, AtomModel)>) -> Seq<u8>
    decreases es.len(),
{
    if es.len() == 0 {
        seq![]
    } else {
        entries_bytes(es.drop_last()) + entry_bytes(es.last())
    }
}

/// The atom file of the entries; their number is cut to 32 bits.
pub open spec fn spec_atom_file(es: Seq<(Seq<char>, AtomModel)>) -> Seq<u8> {
    magic() + le32(es.len() as u32) + entries_bytes(es)
}

/// Reading `count` entries from the front of `d` into `env`: the
/// environment after the entries read, and whether all were read.
pub open spec fn spec_load_entries(env: Map<Seq<char>, AtomModel>, d: Seq<u8>, count: nat) -> (
    Map<Seq<char>, AtomModel>,
    Result<(), ErrorModel>,
)
    decreases count,
{
    if count == 0 {
        (env, Ok(()))
    } else {
        match spec_fetch_str(d) {
            Err(e) => (env, Err(e)),
            Ok(k) => {
                let (v, rest) = spec_deserialize(spec_fetch_str_rest(d));
                match v {
                    Err(e) => (env, Err(e)),
                    Ok(a) => spec_load_entries(env.insert(k, a), rest, (count - 1) as nat),
                }
            },
        }
    }
}

/// Reading an atom file into `env`.
pub open spec fn spec_load(env: Map<Seq<char>, AtomModel>, d: Seq<u8>) -> (
    Map<Seq<char>, AtomModel>,
    Result<(), ErrorModel>,
) {
    if d.len() < 4 {
        (env, Err(ErrorModel::MalformedBytecode))
    } else if d.take(4) != magic() {
        (env, Err(ErrorModel::InvalidMagic))
    } else if d.len() < 8 {
        (env, Err(ErrorModel::MalformedBytecode))
    } else {
        spec_load_entries(env, d.skip(8), u32::spec_from_bytes(d.subrange(4, 8)) as nat)
    }
}

/// An atom built of nil, numbers and pairs only.
pub open spec fn plain(a: AtomModel) -> bool
    decreases a,
{
    match a {
        AtomModel::Nil => true,
        AtomModel::Num(_) => true,
        AtomModel::Cons(h, t) => plain(*h) && plain(*t),
        _ => false,
    }
}

/// Entries that an atom file gives back: plain atoms under names whose
/// UTF-8 form is shorter than 65536 bytes.
pub open spec fn storable(es: Seq<(Seq<char>, AtomModel)>) -> bool {
    forall|i: int|
        0 <= i < es.len() ==> plain(#[trigger] es[i].1) && encode_utf8(es[i].0).len() < 65536
}

/// Inserting the entries into `env`, first to last.
pub open spec fn insert_all(env: Map<Seq<char>, AtomModel>, es: Seq<(Seq<char>, AtomModel)>) -> Map<
    Seq<char>,
    AtomModel,
>
    decreases es.len(),
{
    if es.len() == 0 {
        env
    } else {
        insert_all(env.insert(es[0].0, es[0].1), es.skip(1))
    }
}

/// What reading leaves unread is never longer than what it read from,
/// and shorter when there was anything to read.
pub proof fn lemma_deserialize_rest(d: Seq<u8>)
    ensures
        spec_deserialize(d).1.len() <= d.len(),
        d.len() > 0 ==> spec_deserialize(d).1.len() < d.len(),
    decreases d.len(),
{
    if d.len() > 0 {
        let r = d.skip(1);
        if AtomTag::spec_from_byte(d[0]) == Some(AtomTag::Cons) {
            lemma_deserialize_rest(r);
            let (h, r1) = spec_deserialize(r);
            if h is Ok && r1.len() < d.len() {
                lemma_deserialize_rest(r1);
            }
        }
    }
}

/// Reading a plain atom from bytes that begin with its written form gives
/// the atom back and leaves exactly the bytes after it.
pub proof fn law_deserialize_serialize(a: AtomModel, rest: Seq<u8>)
    requires
        plain(a),
    ensures
        spec_deserialize(spec_serialize(a) + rest) == (Ok::<AtomModel, ErrorModel>(a), rest),
    decreases a,
{
    let d = spec_serialize(a) + rest;
    match a {
        AtomModel::Nil => {
            assert(d.skip(1) =~= rest);
        },
        AtomModel::Num(n) => {
            let r = d.skip(1);
            assert(r =~= n.spec_bytes() + rest);
            law_u64_read_after_write(n, rest);
            assert(r.skip(8) =~= rest);
        },
        AtomModel::Cons(h, t) => {
            let r = d.skip(1);
            assert(r =~= spec_serialize(*h) + (spec_serialize(*t) + rest));
            law_deserialize_serialize(*h, spec_serialize(*t) + rest);
            law_deserialize_serialize(*t, rest);
        },
        _ => {},
    }
}

/// The bytes of nonempty entries are those of the first, then those of
/// the others.
proof fn lemma_entries_bytes_front(es: Seq<(Seq<char>, AtomModel)>)
    requires
        es.len() > 0,
    ensures
        entries_bytes(es) == entry_bytes(es[0]) + entries_bytes(es.skip(1)),
    decreases es.len(),
{
    if es.len() == 1 {
        assert(es.drop_last() =~= Seq::<(Seq<char>, AtomModel)>::empty());
        assert(es.skip(1) =~= Seq::<(Seq<char>, AtomModel)>::empty());
        assert(entries_bytes(es) =~= entry_bytes(es[0]) + entries_bytes(es.skip(1)));
    } else {
        let dl = es.drop_last();
        lemma_entries_bytes_front(dl);
        assert(es.skip(1).drop_last() =~= dl.skip(1));
        assert(entries_bytes(es) =~= entry_bytes(es[0]) + entries_bytes(es.skip(1)));
    }
}

/// The bytes of the first `i + 1` entries are those of the first `i`, then
/// those of entry `i`.
pub proof fn lemma_entries_bytes_take(es: Seq<(Seq<char>, AtomModel)>, i: int)
    requires
        0 <= i < es.len(),
    ensures
        entries_bytes(es.take(i + 1)) == entries_bytes(es.take(i)) + entry_bytes(es[i]),
{
    assert(es.take(i + 1).drop_last() =~= es.take(i));
}

/// Reading entries written one after the other inserts them in order.
proof fn lemma_load_entries(
    env: Map<Seq<char>, AtomModel>,
    es: Seq<(Seq<char>, AtomModel)>,
    rest: Seq<u8>,
)
    requires
        storable(es),
    ensures
        spec_load_entries(env, entries_bytes(es) + rest, es.len()) == (
            insert_all(env, es),
            Ok::<(), ErrorModel>(()),
        ),
    decreases es.len(),
{
    if es.len() == 0 {
        assert(entries_bytes(es) + rest =~= rest);
    } else {
        let (k, v) = es[0];
        let tail = es.skip(1);
        lemma_entries_bytes_front(es);
        let after = entries_bytes(tail) + rest;
        let d = entries_bytes(es) + rest;
        assert(d =~= str_bytes(k) + (spec_serialize(v) + after));
        assert(plain(es[0].1));
        law_str_read_after_write(k, spec_serialize(v) + after);
        law_deserialize_serialize(v, after);
        assert(storable(tail)) by {
            assert forall|i: int| 0 <= i < tail.len() implies plain(#[trigger] tail[i].1)
                && encode_utf8(tail[i].0).len() < 65536 by {
                assert(tail[i] == es[i + 1]);
            }
        }
        lemma_load_entries(env.insert(k, v), tail, rest);
    }
}

proof fn lemma_insert_all_push(
    env: Map<Seq<char>, AtomModel>,
    s: Seq<(Seq<char>, AtomModel)>,
    x: (Seq<char>, AtomModel),
)
    ensures
        insert_all(env, s.push(x)) == insert_all(env, s).insert(x.0, x.1),
    decreases s.len(),
{
    if s.len() == 0 {
        assert(s.push(x).skip(1) =~= Seq::<(Seq<char>, AtomModel)>::empty());
        assert(s.push(x)[0] == x);
        let e = Seq::<(Seq<char>, AtomModel)>::empty();
        assert(insert_all(env.insert(x.0, x.1), e) == env.insert(x.0, x.1));
        assert(insert_all(env, s) == env);
    } else {
        assert(s.push(x).skip(1) =~= s.skip(1).push(x));
        assert(s.push(x)[0] == s[0]);
        lemma_insert_all_push(env.insert(s[0].0, s[0].1), s.skip(1), x);
    }
}

/// Inserting entries in order gives the map of the entries over `env`.
pub proof fn lemma_insert_all(env: Map<Seq<char>, AtomModel>, s: Seq<(Seq<char>, AtomModel)>)
    ensures
        insert_all(env, s) == env.union_prefer_right(entries_map(s)),
    decreases s.len(),
{
    if s.len() == 0 {
        assert(env.union_prefer_right(entries_map(s)) =~= env);
    } else {
        let dl = s.drop_last();
        assert(s =~= dl.push(s.last()));
        lemma_insert_all_push(env, dl, s.last());
        lemma_insert_all(env, dl);
        assert(env.union_prefer_right(entries_map(dl)).insert(s.last().0, s.last().1)
            =~= env.union_prefer_right(entries_map(s)));
    }
}

/// Reading back an atom file binds every name it was written from to its
/// atom, over what `env` held, when the atoms are plain, the names
/// shorter than 65536 bytes and the entries fewer than 2^32.
pub proof fn law_atom_file_roundtrip(
    env: Map<Seq<char>, AtomModel>,
    es: Seq<(Seq<char>, AtomModel)>,
)
    requires
        storable(es),
        es.len() < 0x1_0000_0000,
    ensures
        spec_load(env, spec_atom_file(es)) == (
            env.union_prefer_right(entries_map(es)),
            Ok::<(), ErrorModel>(()),
        ),
{
    let c = es.len() as u32;
    let w = entries_bytes(es);
    let d = spec_atom_file(es);
    assert(d.take(4) =~= magic());
    law_u32_read_after_write(c, w);
    assert(d.subrange(4, 8) =~= (c.spec_bytes() + w).take(4));
    assert(d.skip(8) =~= w + Seq::<u8>::empty());
    lemma_load_entries(env, es, Seq::<u8>::empty());
    lemma_insert_all(env, es);
}

} // verus!
