//! The name table: the inflated payload of the directory, a count followed
//! by length-prefixed, null-terminated names.

use crate::codec::{inflate_zlib, is_part_of, trimmed, trimmed_text, utf8_text, zlib_inflated};
use crate::cursor::{u32_at, ByteCursor};
use crate::descriptor_block::blocks_view;
use crate::error::S3dError;
use crate::layout::prepend;
use vstd::prelude::*;
use vstd::slice::slice_subrange;
use vstd::utf8::{decode_utf8, valid_utf8};

verus! {

/// The views of a list of strings.
pub open spec fn strings_view(names: Seq<String>) -> Seq<Seq<char>> {
    names.map_values(|name: String| name@)
}

/// The chunks inflated one by one and joined in order.
pub open spec fn inflate_all(chunks: Seq<Seq<u8>>) -> Result<Seq<u8>, S3dError>
    decreases chunks.len(),
{
    if chunks.len() == 0 {
        Ok(Seq::empty())
    } else {
        match inflate_all(chunks.drop_last()) {
            Err(error) => Err(error),
            Ok(front) => match zlib_inflated(chunks.last()) {
                None => Err(S3dError::DecompressionFailed),
                Some(bytes) => Ok(front + bytes),
            },
        }
    }
}

/// The name that a record spells: its bytes without the closing null byte,
/// read as UTF-8 and trimmed. A record without that null byte is a format
/// error.
pub open spec fn name_of(record: Seq<u8>) -> Result<Seq<char>, S3dError> {
    if record.len() == 0 || record.last() != 0 {
        Err(S3dError::InvalidFormat)
    } else if !valid_utf8(record.drop_last()) {
        Err(S3dError::NameDecodingFailed)
    } else {
        Ok(trimmed_text(decode_utf8(record.drop_last())))
    }
}

/// The names of `count` records that start at `pos`: each a length and that
/// many bytes.
pub open spec fn names_from(table: Seq<u8>, pos: int, count: nat) -> Result<
    Seq<Seq<char>>,
    S3dError,
>
    decreases count,
{
    if count == 0 {
        Ok(Seq::empty())
    } else if pos < 0 || pos + 4 > table.len() {
        Err(S3dError::UnexpectedEof)
    } else {
        let end = pos + 4 + u32_at(table, pos);
        if end > table.len() {
            Err(S3dError::UnexpectedEof)
        } else {
            match name_of(table.subrange(pos + 4, end)) {
                Err(error) => Err(error),
                Ok(name) => prepend(seq![name], names_from(table, end, (count - 1) as nat)),
            }
        }
    }
}

/// The names that a name table holds: as many as its leading count says.
pub open spec fn name_table(table: Seq<u8>) -> Result<Seq<Seq<char>>, S3dError> {
    if table.len() < 4 {
        Err(S3dError::UnexpectedEof)
    } else {
        names_from(table, 4, u32_at(table, 0) as nat)
    }
}

/// The names that the directory's chunks hold once inflated.
pub open spec fn directory_names(chunks: Seq<Seq<u8>>) -> Result<Seq<Seq<char>>, S3dError> {
    match inflate_all(chunks) {
        Err(error) => Err(error),
        Ok(table) => name_table(table),
    }
}

/// Every name that was parsed comes from a record whose last byte is the
/// null terminator, and is made of the bytes before it alone.
pub proof fn parsed_name_drops_terminator(record: Seq<u8>)
    requires
        name_of(record) is Ok,
    ensures
        record.len() > 0,
        record.last() == 0,
        valid_utf8(record.drop_last()),
        name_of(record).unwrap() == trimmed_text(decode_utf8(record.drop_last())),
{
}

/// A name table that parses holds exactly as many names as it declares.
pub proof fn names_match_declared_count(table: Seq<u8>, pos: int, count: nat)
    requires
        names_from(table, pos, count) is Ok,
    ensures
        names_from(table, pos, count).unwrap().len() == count,
    decreases count,
{
    if count > 0 {
        let end = pos + 4 + u32_at(table, pos);
        names_match_declared_count(table, end, (count - 1) as nat);
    }
}

/// Decodes one name record: the bytes before the closing null byte, read
/// as UTF-8 and trimmed. The name is a part of that text, so the null byte
/// that closed the record is not in it.
pub fn decode_name(record: &[u8]) -> (decoded: Result<String, S3dError>)
    ensures
        match name_of(record@) {
            Ok(name) => decoded matches Ok(text) && text@ == name && is_part_of(
                text@,
                decode_utf8(record@.drop_last()),
            ),
            Err(error) => decoded matches Err(e) && e == error,
        },
{
    let length: usize = record.len();
    if length == 0 || record[length - 1] != 0 {
        return Err(S3dError::InvalidFormat);
    }
    let body = slice_subrange(record, 0, length - 1);
    assert(body@ =~= record@.drop_last());
    match utf8_text(body) {
        None => Err(S3dError::NameDecodingFailed),
        Some(text) => Ok(trimmed(text).to_owned()),
    }
}

/// Parses a name table: a count, then that many name records.
pub fn parse_name_table(table: &[u8]) -> (parsed: Result<Vec<String>, S3dError>)
    ensures
        match name_table(table@) {
            Ok(names) => parsed matches Ok(texts) && strings_view(texts@) == names,
            Err(error) => parsed matches Err(e) && e == error,
        },
{
    let mut cursor = ByteCursor::new(table);
    let file_count: u32 = cursor.read_u32_le()?;
    let mut file_names: Vec<String> = Vec::new();
    let mut file_index: u32 = 0;
    let ghost whole = names_from(table@, 4, file_count as nat);
    proof {
        if whole is Ok {
            assert(strings_view(file_names@) + whole.unwrap() =~= whole.unwrap());
        }
    }
    while file_index < file_count
        invariant
            cursor.data == table,
            table@.len() >= 4,
            file_count == u32_at(table@, 0),
            file_index <= file_count,
            whole == names_from(table@, 4, file_count as nat),
            whole == prepend(
                strings_view(file_names@),
                names_from(table@, cursor.position as int, (file_count - file_index) as nat),
            ),
        decreases file_count - file_index,
    {
        let ghost start = cursor.position as int;
        let ghost done = strings_view(file_names@);
        let length: u32 = cursor.read_u32_le()?;
        let record = cursor.read_exact(length as usize)?;
        let name = decode_name(record.as_slice())?;
        proof {
            let rest = names_from(
                table@,
                cursor.position as int,
                (file_count - file_index - 1) as nat,
            );
            if rest is Ok {
                assert(done + (seq![name@] + rest.unwrap()) =~= done.push(name@) + rest.unwrap());
            }
            assert(strings_view(file_names@.push(name)) =~= done.push(name@));
        }
        file_names.push(name);
        file_index = file_index + 1;
    }
    proof {
        assert(strings_view(file_names@) + Seq::<Seq<char>>::empty() =~= strings_view(
            file_names@,
        ));
    }
    Ok(file_names)
}

/// Inflates each chunk and joins the results in order.
pub fn inflate_chunks(chunks: &Vec<Vec<u8>>) -> (inflated: Result<Vec<u8>, S3dError>)
    ensures
        match inflate_all(blocks_view(chunks@)) {
            Ok(bytes) => inflated matches Ok(joined) && joined@ == bytes,
            Err(error) => inflated matches Err(e) && e == error,
        },
{
    let mut decoded_data: Vec<u8> = Vec::new();
    let ghost all = blocks_view(chunks@);
    let mut index: usize = 0;
    while index < chunks.len()
        invariant
            index <= chunks.len(),
            all == blocks_view(chunks@),
            inflate_all(all.subrange(0, index as int)) == Ok::<Seq<u8>, S3dError>(decoded_data@),
        decreases chunks.len() - index,
    {
        proof {
            assert(all.subrange(0, index + 1).drop_last() =~= all.subrange(0, index as int));
            assert(all.subrange(0, index + 1).last() == chunks@[index as int]@);
        }
        match inflate_zlib(chunks[index].as_slice()) {
            None => {
                proof {
                    failed_chunk_fails_all(all, index + 1);
                }
                return Err(S3dError::DecompressionFailed);
            },
            Some(decoded_chunk) => {
                let ghost front = decoded_data@;
                decoded_data.extend_from_slice(decoded_chunk.as_slice());
                proof {
                    let upto = all.subrange(0, index + 1);
                    assert(zlib_inflated(upto.last()) == Some(decoded_chunk@));
                    assert(inflate_all(upto.drop_last()) == Ok::<Seq<u8>, S3dError>(front));
                    assert(decoded_data@ == front + decoded_chunk@);
                }
            },
        }
        index = index + 1;
    }
    proof {
        assert(all.subrange(0, index as int) =~= all);
    }
    Ok(decoded_data)
}

/// Once a front part of the chunks fails to inflate, the whole fails.
proof fn failed_chunk_fails_all(chunks: Seq<Seq<u8>>, upto: int)
    requires
        0 <= upto <= chunks.len(),
        inflate_all(chunks.subrange(0, upto)) == Err::<Seq<u8>, S3dError>(
            S3dError::DecompressionFailed,
        ),
    ensures
        inflate_all(chunks) == Err::<Seq<u8>, S3dError>(S3dError::DecompressionFailed),
    decreases chunks.len() - upto,
{
    if upto < chunks.len() {
        assert(chunks.subrange(0, upto + 1).drop_last() =~= chunks.subrange(0, upto));
        failed_chunk_fails_all(chunks, upto + 1);
    } else {
        assert(chunks.subrange(0, upto) =~= chunks);
    }
}

/// Reads the names that the directory's chunks hold: inflates the chunks,
/// joins them and parses the result as a name table.
pub fn read_file_names(data: &Vec<Vec<u8>>) -> (read: Result<Vec<String>, S3dError>)
    ensures
        match directory_names(blocks_view(data@)) {
            Ok(names) => read matches Ok(texts) && strings_view(texts@) == names,
            Err(error) => read matches Err(e) && e == error,
        },
{
    let decoded_data = inflate_chunks(data)?;
    parse_name_table(decoded_data.as_slice())
}

} // verus!
