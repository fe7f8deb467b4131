use vstd::prelude::*;

use crate::bytes::{find_byte, first_pos, push_all, subvec};
use crate::error::Error;
use crate::ext::{hex_encode, hex_lower_of};
use crate::objects::ObjectType;

verus! {

// ----------------------------------------------------------------------------
// Reading tree bodies back
// ----------------------------------------------------------------------------

/// One parsed tree entry: the octal mode bytes, the raw name bytes, and the
/// raw 20-byte child hash.
#[derive(Debug)]
pub struct ParsedTreeEntry {
    pub mode: Vec<u8>,
    pub name: Vec<u8>,
    pub hash: Vec<u8>,
}

pub ghost struct ParsedEntryModel {
    pub mode: Seq<u8>,
    pub name: Seq<u8>,
    pub hash: Seq<u8>,
}

impl View for ParsedTreeEntry {
    type V = ParsedEntryModel;

    open spec fn view(&self) -> ParsedEntryModel {
        ParsedEntryModel { mode: self.mode@, name: self.name@, hash: self.hash@ }
    }
}

/// What parsing a tree body yields: the entries in order, or nothing when the
/// bytes are not a whole number of well-formed
/// `<mode> <name>\0<20-byte hash>` records.
pub open spec fn parse_tree_spec(s: Seq<u8>) -> Option<Seq<ParsedEntryModel>>
    decreases s.len(),
    via parse_tree_spec_dec
{
    if s.len() == 0 {
        Some(Seq::empty())
    } else {
        let z = first_pos(s, 0);
        if z == s.len() {
            None
        } else if s.len() - z - 1 < 20 {
            None
        } else {
            let seg = s.take(z);
            let sp = first_pos(seg, 32);
            if sp == seg.len() {
                None
            } else {
                match parse_tree_spec(s.skip(z + 21)) {
                    Some(tail) => Some(
                        seq![
                            ParsedEntryModel {
                                mode: seg.take(sp),
                                name: seg.skip(sp + 1),
                                hash: s.subrange(z + 1, z + 21),
                            },
                        ] + tail,
                    ),
                    None => None,
                }
            }
        }
    }
}

#[via_fn]
proof fn parse_tree_spec_dec(s: Seq<u8>) {
    crate::bytes::lemma_first_pos_bounds(s, 0);
}

/// The models of a vector of parsed entries.
pub open spec fn parsed_views(v: Seq<ParsedTreeEntry>) -> Seq<ParsedEntryModel> {
    v.map_values(|e: ParsedTreeEntry| e@)
}

/// Parses a tree body into its entries; any trailing or malformed record is
/// `Corrupt`.
pub fn parse_tree(body: &Vec<u8>) -> (r: Result<Vec<ParsedTreeEntry>, Error>)
    ensures
        match parse_tree_spec(body@) {
            Some(es) => r matches Ok(v) && parsed_views(v@) == es,
            None => r == Err::<Vec<ParsedTreeEntry>, Error>(Error::Corrupt),
        },
{
    let mut rem = subvec(body, 0, body.len());
    proof {
        assert(rem@ =~= body@);
    }
    let mut acc: Vec<ParsedTreeEntry> = Vec::new();
    while rem.len() > 0
        invariant
            match parse_tree_spec(rem@) {
                Some(tail) => parse_tree_spec(body@) == Some(parsed_views(acc@) + tail),
                None => parse_tree_spec(body@) is None,
            },
        decreases rem@.len(),
    {
        let z = find_byte(&rem, 0);
        if z == rem.len() {
            return Err(Error::Corrupt);
        }
        if rem.len() - z - 1 < 20 {
            return Err(Error::Corrupt);
        }
        let seg = subvec(&rem, 0, z);
        proof {
            assert(seg@ =~= rem@.take(z as int));
        }
        let sp = find_byte(&seg, 32);
        if sp == seg.len() {
            return Err(Error::Corrupt);
        }
        let mode = subvec(&seg, 0, sp);
        let name = subvec(&seg, sp + 1, seg.len());
        let hash = subvec(&rem, z + 1, z + 21);
        proof {
            assert(mode@ =~= seg@.take(sp as int));
            assert(name@ =~= seg@.skip(sp + 1 as int));
            assert(hash@ =~= rem@.subrange(z + 1 as int, z + 21 as int));
        }
        let ghost old_acc = acc@;
        let ghost old_rem = rem@;
        acc.push(ParsedTreeEntry { mode, name, hash });
        let next = subvec(&rem, z + 21, rem.len());
        proof {
            assert(next@ =~= old_rem.skip(z + 21 as int));
        }
        rem = next;
        proof {
            let m = ParsedEntryModel {
                mode: old_rem.take(z as int).take(sp as int),
                name: old_rem.take(z as int).skip(sp + 1 as int),
                hash: old_rem.subrange(z + 1 as int, z + 21 as int),
            };
            assert(parsed_views(acc@) =~= parsed_views(old_acc).push(m));
            if parse_tree_spec(rem@) is Some {
                let tail = parse_tree_spec(rem@)->Some_0;
                assert(parse_tree_spec(old_rem) == Some(seq![m] + tail));
                assert(parsed_views(old_acc) + (seq![m] + tail) =~= parsed_views(old_acc).push(m)
                    + tail);
            }
        }
    }
    proof {
        assert(parse_tree_spec(rem@) == Some(Seq::<ParsedEntryModel>::empty()));
        assert(parsed_views(acc@) + Seq::<ParsedEntryModel>::empty() =~= parsed_views(acc@));
    }
    Ok(acc)
}

/// The model a written entry reads back as.
pub open spec fn parsed_of(e: crate::tree::TreeEntry) -> ParsedEntryModel {
    ParsedEntryModel {
        mode: e.mode.mode_spec(),
        name: e.name@,
        hash: match e.child_hash {
            Some(h) => h@,
            None => Seq::empty(),
        },
    }
}

/// The octal mode strings hold ASCII digits only: never NUL, never a space.
proof fn lemma_mode_bytes(m: crate::tree::EntryMode)
    ensures
        forall|i: int|
            0 <= i < m.mode_spec().len() ==> 48 <= #[trigger] m.mode_spec()[i] <= 57,
{
    if m == crate::tree::EntryMode::Directory {
    } else if m == crate::tree::EntryMode::Symlink {
    } else if m == crate::tree::EntryMode::Executable {
    } else {
    }
}

/// A tree body splits off its first entry's serialization at the front.
proof fn lemma_tree_body_front(s: Seq<crate::tree::TreeEntry>)
    requires
        s.len() > 0,
    ensures
        crate::tree::tree_body_of(s) == s[0].serialized() + crate::tree::tree_body_of(
            s.drop_first(),
        ),
    decreases s.len(),
{
    if s.len() == 1 {
        assert(s.drop_last() =~= Seq::<crate::tree::TreeEntry>::empty());
        assert(s.drop_first() =~= Seq::<crate::tree::TreeEntry>::empty());
        assert(crate::tree::tree_body_of(s) =~= s[0].serialized() + crate::tree::tree_body_of(
            s.drop_first(),
        ));
    } else {
        lemma_tree_body_front(s.drop_last());
        assert(s.drop_last()[0] == s[0]);
        assert(s.drop_last().drop_first() =~= s.drop_first().drop_last());
        assert(s.drop_first().last() == s.last());
        assert(s.drop_first().len() > 0);
        assert(crate::tree::tree_body_of(s.drop_first()) == crate::tree::tree_body_of(
            s.drop_first().drop_last(),
        ) + s.last().serialized());
        assert(crate::tree::tree_body_of(s) =~= s[0].serialized() + crate::tree::tree_body_of(
            s.drop_first(),
        ));
    }
}

/// Round trip of the tree codec: parsing the serialized body of surviving
/// entries yields exactly their modes, names, and child hashes, in order.
pub proof fn lemma_parse_of_tree_body(s: Seq<crate::tree::TreeEntry>)
    requires
        forall|i: int|
            0 <= i < s.len() ==> (#[trigger] s[i]).valid() && s[i].child_hash is Some,
    ensures
        parse_tree_spec(crate::tree::tree_body_of(s)) == Some(
            s.map_values(|e: crate::tree::TreeEntry| parsed_of(e)),
        ),
    decreases s.len(),
{
    let body = crate::tree::tree_body_of(s);
    if s.len() == 0 {
        assert(s.map_values(|e: crate::tree::TreeEntry| parsed_of(e)) =~= Seq::<
            ParsedEntryModel,
        >::empty());
    } else {
        let e0 = s[0];
        let mode = e0.mode.mode_spec();
        let name = e0.name@;
        let h = e0.child_hash->Some_0@;
        let rest = crate::tree::tree_body_of(s.drop_first());
        lemma_tree_body_front(s);
        lemma_mode_bytes(e0.mode);
        let seg = mode + seq![32u8] + name;
        let z = seg.len() as int;
        assert(body =~= seg + seq![0u8] + h + rest);
        assert forall|i: int| 0 <= i < z implies body[i] != 0 by {
            if i < mode.len() {
                assert(seg[i] == mode[i]);
            } else if i == mode.len() {
                assert(seg[i] == 32);
            } else {
                assert(seg[i] == name[i - mode.len() - 1]);
            }
            assert(body[i] == seg[i]);
        }
        assert(body[z] == 0);
        crate::bytes::lemma_first_pos_is(body, 0, z);
        assert(body.take(z) =~= seg);
        assert forall|i: int| 0 <= i < mode.len() implies seg[i] != 32 by {
            assert(seg[i] == mode[i]);
        }
        assert(seg[mode.len() as int] == 32);
        crate::bytes::lemma_first_pos_is(seg, 32, mode.len() as int);
        assert(seg.take(mode.len() as int) =~= mode);
        assert(seg.skip(mode.len() + 1 as int) =~= name);
        assert(h.len() == 20);
        assert(body.len() - z - 1 >= 20);
        assert(body.subrange(z + 1, z + 21) =~= h);
        assert(body.skip(z + 21) =~= rest);
        assert forall|i: int|
            0 <= i < s.drop_first().len() implies (#[trigger] s.drop_first()[i]).valid()
            && s.drop_first()[i].child_hash is Some by {
            assert(s.drop_first()[i] == s[i + 1]);
        }
        lemma_parse_of_tree_body(s.drop_first());
        assert(seq![parsed_of(e0)] + s.drop_first().map_values(
            |e: crate::tree::TreeEntry| parsed_of(e),
        ) =~= s.map_values(|e: crate::tree::TreeEntry| parsed_of(e)));
    }
}

/// Splits one entry's `<mode> <name>` bytes at the first space: the mode,
/// then the name.
pub fn get_mode_and_name(buf: &Vec<u8>) -> (r: Result<(Vec<u8>, Vec<u8>), Error>)
    ensures
        ({
            let sp = first_pos(buf@, 32);
            if sp == buf@.len() {
                r == Err::<(Vec<u8>, Vec<u8>), Error>(Error::Corrupt)
            } else {
                r matches Ok(mn) && mn.0@ == buf@.take(sp) && mn.1@ == buf@.skip(sp + 1)
            }
        }),
{
    let sp = find_byte(buf, 32);
    if sp == buf.len() {
        return Err(Error::Corrupt);
    }
    let mode = subvec(buf, 0, sp);
    let name = subvec(buf, sp + 1, buf.len());
    Ok((mode, name))
}

/// The name part of one entry's `<mode> <name>` bytes.
pub fn get_name(buf: &Vec<u8>) -> (r: Result<Vec<u8>, Error>)
    ensures
        ({
            let sp = first_pos(buf@, 32);
            if sp == buf@.len() {
                r == Err::<Vec<u8>, Error>(Error::Corrupt)
            } else {
                r matches Ok(n) && n@ == buf@.skip(sp + 1)
            }
        }),
{
    match get_mode_and_name(buf) {
        Ok(mn) => Ok(mn.1),
        Err(e) => Err(e),
    }
}

/// A mode padded on the left with ASCII zeros to six digits; longer modes are
/// unchanged.
pub open spec fn formatted_mode(s: Seq<u8>) -> Seq<u8> {
    if s.len() >= 6 {
        s
    } else {
        Seq::new((6 - s.len()) as nat, |i: int| 48u8) + s
    }
}

pub fn get_formatted_mode(mode: Vec<u8>) -> (r: Vec<u8>)
    ensures
        r@ == formatted_mode(mode@),
{
    if mode.len() >= 6 {
        return mode;
    }
    let pad = 6 - mode.len();
    let mut r: Vec<u8> = Vec::new();
    let mut i: usize = 0;
    proof {
        assert(r@ =~= Seq::new(0nat, |j: int| 48u8));
    }
    while i < pad
        invariant
            0 <= i <= pad,
            r@ == Seq::new(i as nat, |j: int| 48u8),
        decreases pad - i,
    {
        r.push(48);
        i += 1;
        proof {
            assert(r@ =~= Seq::new(i as nat, |j: int| 48u8));
        }
    }
    push_all(&mut r, &mode);
    proof {
        assert(r@ =~= formatted_mode(mode@));
    }
    r
}

/// The display line of one tree entry: the zero-padded mode, the child's
/// kind name, the hex hash, a tab, and the raw name.
pub open spec fn full_output_spec(mode_and_name: Seq<u8>, hash: Seq<u8>, kind: ObjectType) -> Result<
    Seq<u8>,
    Error,
> {
    let sp = first_pos(mode_and_name, 32);
    if sp == mode_and_name.len() {
        Err(Error::Corrupt)
    } else {
        Ok(
            formatted_mode(mode_and_name.take(sp)) + seq![32u8] + kind.name_spec() + seq![32u8]
                + hex_lower_of(hash) + seq![9u8] + mode_and_name.skip(sp + 1),
        )
    }
}

/// Formats one entry's display line from its `<mode> <name>` bytes, its raw
/// child hash, and the child's kind as read back from the store.
pub fn get_full_output(mode_and_name: &Vec<u8>, hash: &Vec<u8>, kind: ObjectType) -> (r: Result<
    Vec<u8>,
    Error,
>)
    ensures
        match full_output_spec(mode_and_name@, hash@, kind) {
            Ok(line) => r matches Ok(v) && v@ == line,
            Err(e) => r == Err::<Vec<u8>, Error>(e),
        },
{
    let (mode, name) = match get_mode_and_name(mode_and_name) {
        Ok(mn) => mn,
        Err(e) => {
            return Err(e);
        },
    };
    let mut line = get_formatted_mode(mode);
    line.push(32);
    let kn = kind.name();
    push_all(&mut line, &kn);
    line.push(32);
    let hx = hex_encode(hash);
    push_all(&mut line, &hx);
    line.push(9);
    push_all(&mut line, &name);
    proof {
        let sp = first_pos(mode_and_name@, 32);
        assert(line@ =~= formatted_mode(mode_and_name@.take(sp)) + seq![32u8] + kind.name_spec()
            + seq![32u8] + hex_lower_of(hash@) + seq![9u8] + mode_and_name@.skip(sp + 1));
    }
    Ok(line)
}

} // verus!
