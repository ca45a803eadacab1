//! The tag encoding map: packed 24-bit tag ids to encodings.
//!
//! On the wire: an ITF8 byte length, an ITF8 entry count, then that many
//! entries of an ITF8 key and an encoding descriptor.

use vstd::prelude::*;

use bytes::Bytes;

use crate::buf::{bytes_view, get_itf8, remaining, split_to, ReadError};
use crate::encoding::{get_encoding, lemma_parse_itf8_len, parse_encoding, Encoding, EncodingView};
use crate::num::parse_itf8;

verus! {

/// The per-tag encodings, keyed by packed tag id. Later entries shadow
/// earlier ones, as inserts into a map would.
#[derive(Debug, PartialEq, Eq)]
pub struct TagEncodingMap {
    /// The entries, in wire order.
    pub entries: Vec<(i32, Encoding)>,
}

/// What a run of entries denotes: a map where the last entry for a key
/// wins.
pub open spec fn tem_entries_view(s: Seq<(i32, Encoding)>) -> Map<i32, EncodingView>
    decreases s.len(),
{
    if s.len() == 0 {
        Map::empty()
    } else {
        tem_entries_view(s.drop_last()).insert(s.last().0, s.last().1@)
    }
}

/// The map's mathematical shape.
pub open spec fn tem_view(m: &TagEncodingMap) -> Map<i32, EncodingView> {
    tem_entries_view(m.entries@)
}

impl TagEncodingMap {
    /// An empty map.
    pub fn new() -> (m: TagEncodingMap)
        ensures
            tem_view(&m) == Map::<i32, EncodingView>::empty(),
    {
        TagEncodingMap { entries: Vec::new() }
    }

    /// Adds an entry; it shadows any earlier entry under the same key.
    pub fn insert(&mut self, key: i32, encoding: Encoding)
        ensures
            tem_view(&*final(self)) == tem_view(&*old(self)).insert(key, encoding@),
    {
        self.entries.push((key, encoding));
        proof {
            assert(self.entries@.drop_last() =~= old(self).entries@);
        }
    }

    /// Looks a key up: the newest entry under it, if any.
    pub fn get(&self, key: i32) -> (r: Option<&Encoding>)
        ensures
            match r {
                Some(e) => tem_view(self).dom().contains(key) && e@ == tem_view(self)[key],
                None => !tem_view(self).dom().contains(key),
            },
    {
        let mut i: usize = self.entries.len();
        proof {
            assert(self.entries@.take(i as int) =~= self.entries@);
        }
        while i > 0
            invariant
                i <= self.entries@.len(),
                !tem_entries_view(self.entries@.take(i as int)).dom().contains(key) ==> !tem_view(
                    self,
                ).dom().contains(key),
                tem_entries_view(self.entries@.take(i as int)).dom().contains(key)
                    ==> tem_view(self).dom().contains(key) && tem_entries_view(
                    self.entries@.take(i as int),
                )[key] == tem_view(self)[key],
            decreases i,
        {
            i = i - 1;
            proof {
                assert(self.entries@.take(i + 1 as int).drop_last() =~= self.entries@.take(
                    i as int,
                ));
                assert(self.entries@.take(i + 1 as int).last() == self.entries@[i as int]);
            }
            if self.entries[i].0 == key {
                return Some(&self.entries[i].1);
            }
        }
        proof {
            assert(self.entries@.take(0) =~= Seq::<(i32, Encoding)>::empty());
        }
        None
    }
}

/// `count` wire entries folded into a map; input that ends early is an
/// unexpected end.
pub open spec fn parse_tem_entries(s: Seq<u8>, count: int, acc: Map<i32, EncodingView>) -> Result<
    Map<i32, EncodingView>,
    ReadError,
>
    decreases count,
{
    if count <= 0 {
        Ok(acc)
    } else {
        match parse_itf8(s) {
            None => Err(ReadError::UnexpectedEof),
            Some((key, n1)) => match parse_encoding(s.skip(n1)) {
                Err(e) => Err(e),
                Ok((e, n2)) => parse_tem_entries(s.skip(n1 + n2), count - 1, acc.insert(key, e)),
            },
        }
    }
}

/// Reads a whole tag encoding map from the front of a sequence: the map
/// and the bytes consumed. Input shorter than its declared length is an
/// unexpected end; a negative length or count is invalid.
pub open spec fn parse_tem(s: Seq<u8>) -> Result<(Map<i32, EncodingView>, int), ReadError> {
    match parse_itf8(s) {
        None => Err(ReadError::UnexpectedEof),
        Some((data_len, n1)) => if data_len < 0 {
            Err(ReadError::InvalidData)
        } else if s.len() - n1 < data_len {
            Err(ReadError::UnexpectedEof)
        } else {
            let block = s.skip(n1).take(data_len as int);
            match parse_itf8(block) {
                None => Err(ReadError::UnexpectedEof),
                Some((count, n2)) => if count < 0 {
                    Err(ReadError::InvalidData)
                } else {
                    match parse_tem_entries(block.skip(n2), count as int, Map::empty()) {
                        Ok(m) => Ok((m, n1 + data_len)),
                        Err(e) => Err(e),
                    }
                },
            }
        },
    }
}

/// Deserializes a tag encoding map from the front of `src`.
#[verifier::loop_isolation(false)]
#[verifier::rlimit(100)]
pub fn get_tag_encoding_map(src: &mut Bytes) -> (r: Result<TagEncodingMap, ReadError>)
    ensures
        match parse_tem(bytes_view(*old(src))) {
            Ok((pm, n)) => r matches Ok(m) && tem_view(&m) == pm && bytes_view(*final(src))
                == bytes_view(*old(src)).skip(n),
            Err(e) => r == Err::<TagEncodingMap, ReadError>(e),
        },
        ({
            let s0 = bytes_view(*old(src));
            match parse_itf8(s0) {
                Some((data_len, n1)) => if data_len >= 0 && s0.len() - n1 >= data_len {
                    bytes_view(*final(src)) == s0.skip(n1 + data_len)
                } else {
                    bytes_view(*final(src)) == s0.skip(n1)
                },
                None => true,
            }
        }),
{
    let ghost s0 = bytes_view(*src);
    proof {
        lemma_parse_itf8_len(s0);
    }
    let data_len_raw = get_itf8(src)?;
    if data_len_raw < 0 {
        return Err(ReadError::InvalidData);
    }
    let ghost n1 = parse_itf8(s0).unwrap().1;
    let data_len = data_len_raw as usize;
    if remaining(src) < data_len {
        return Err(ReadError::UnexpectedEof);
    }
    let mut buf = split_to(src, data_len);
    let ghost block = bytes_view(buf);
    proof {
        assert(block =~= s0.skip(n1).take(data_len_raw as int));
        assert(s0.skip(n1).skip(data_len_raw as int) =~= s0.skip(n1 + data_len_raw));
        lemma_parse_itf8_len(block);
    }
    let count = get_itf8(&mut buf)?;
    if count < 0 {
        return Err(ReadError::InvalidData);
    }
    let ghost n2 = parse_itf8(block).unwrap().1;

    let mut m = TagEncodingMap::new();
    let mut i: i32 = 0;
    while i < count
        invariant
            0 <= i <= count,
            match parse_tem_entries(bytes_view(buf), count - i, tem_view(&m)) {
                Ok(fm) => parse_tem_entries(block.skip(n2), count as int, Map::empty()) == Ok::<
                    Map<i32, EncodingView>,
                    ReadError,
                >(fm),
                Err(e) => parse_tem_entries(block.skip(n2), count as int, Map::empty()) == Err::<
                    Map<i32, EncodingView>,
                    ReadError,
                >(e),
            },
        decreases count - i,
    {
        let ghost cur = bytes_view(buf);
        proof {
            lemma_parse_itf8_len(cur);
        }
        let key = get_itf8(&mut buf)?;
        let ghost n = parse_itf8(cur).unwrap().1;
        let encoding = get_encoding(&mut buf)?;
        let ghost ne = parse_encoding(cur.skip(n))->Ok_0.1;
        proof {
            assert(cur.skip(n).skip(ne) =~= cur.skip(n + ne));
        }
        m.insert(key, encoding);
        i = i + 1;
    }
    Ok(m)
}

} // verus!
