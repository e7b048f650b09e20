//! The external files chunk: files that the sprite refers to by id.
use vstd::prelude::*;

use crate::bytes_le::{lemma_u32_at, put_u32_le, put_u8, put_zeros, u16_at, u32_at, u32_le, zeros};
use crate::formats::aseprite::raw::{
    avail, encode_utf8_len, flat, lemma_flat_push, lemma_name_roundtrip, lemma_prepend_push,
    name_bytes, prepend, put_name, read_lossy_name, read_u32, read_u8, skip_bytes, ReadError,
};
use crate::strings::lossy_text;

verus! {

/// The chunk type of an external files chunk.
pub const EXTERNAL_FILES_CHUNK_TYPE: u16 = 0x2008;

/// What an external file holds.
#[derive(Clone, Copy, Debug, PartialEq, Eq, Structural)]
pub enum ExternalFileType {
    Palette,
    Tileset,
    ExtensionProperties,
    ExtensionTileManagement,
}

/// The number that stands for a file type in a file.
pub open spec fn file_type_code(t: ExternalFileType) -> u8 {
    match t {
        ExternalFileType::Palette => 0,
        ExternalFileType::Tileset => 1,
        ExternalFileType::ExtensionProperties => 2,
        ExternalFileType::ExtensionTileManagement => 3,
    }
}

/// The file type that the number `code` stands for, if any.
pub open spec fn file_type_of_code(code: u8) -> Option<ExternalFileType> {
    if code == 0 {
        Some(ExternalFileType::Palette)
    } else if code == 1 {
        Some(ExternalFileType::Tileset)
    } else if code == 2 {
        Some(ExternalFileType::ExtensionProperties)
    } else if code == 3 {
        Some(ExternalFileType::ExtensionTileManagement)
    } else {
        None
    }
}

/// An external file: its id, type, and file name or extension id.
#[derive(Clone, Debug)]
pub struct ExternalFileEntry {
    pub entry_id: u32,
    pub file_type: ExternalFileType,
    pub file_name_or_id: String,
}

/// An external files chunk.
#[derive(Clone, Debug)]
pub struct ExternalFilesChunk {
    pub entries: Vec<ExternalFileEntry>,
}

/// The model of an [`ExternalFileEntry`]: the name by its characters.
pub struct ExternalFileModel {
    pub entry_id: u32,
    pub file_type: ExternalFileType,
    pub file_name_or_id: Seq<char>,
}

impl View for ExternalFileEntry {
    type V = ExternalFileModel;

    open spec fn view(&self) -> ExternalFileModel {
        ExternalFileModel {
            entry_id: self.entry_id,
            file_type: self.file_type,
            file_name_or_id: self.file_name_or_id@,
        }
    }
}

/// The models of external file entries.
pub open spec fn file_models(es: Seq<ExternalFileEntry>) -> Seq<ExternalFileModel> {
    Seq::new(es.len(), |i: int| es[i]@)
}

impl View for ExternalFilesChunk {
    type V = Seq<ExternalFileModel>;

    open spec fn view(&self) -> Seq<ExternalFileModel> {
        file_models(self.entries@)
    }
}

/// The bytes of an entry: id, type, 7 reserved bytes, name.
pub open spec fn file_entry_bytes(e: ExternalFileModel) -> Seq<u8> {
    u32_le(e.entry_id) + seq![file_type_code(e.file_type)] + zeros(7) + name_bytes(
        e.file_name_or_id,
    )
}

/// The bytes of the entries, one after another.
pub open spec fn file_list_bytes(es: Seq<ExternalFileModel>) -> Seq<u8> {
    flat(Seq::new(es.len(), |i: int| file_entry_bytes(es[i])))
}

/// The bytes of an external files chunk: the entry count, 8 reserved bytes,
/// the entries.
pub open spec fn external_files_bytes(es: Seq<ExternalFileModel>) -> Seq<u8> {
    u32_le(es.len() as u32) + zeros(8) + file_list_bytes(es)
}

/// What reading an entry at offset `p` of `d` gives, with the offset after
/// it: the type is checked after the name is read.
pub open spec fn parse_file_entry(d: Seq<u8>, p: int) -> Result<(ExternalFileModel, int), ReadError> {
    if !avail(d, p, 14) {
        Err(ReadError::UnexpectedEnd)
    } else {
        let n = u16_at(d, p + 12) as int;
        if !avail(d, p + 14, n) {
            Err(ReadError::UnexpectedEnd)
        } else {
            match file_type_of_code(d[p + 4]) {
                None => Err(ReadError::InvalidExternalFileType(d[p + 4])),
                Some(file_type) => Ok(
                    (
                        ExternalFileModel {
                            entry_id: u32_at(d, p),
                            file_type,
                            file_name_or_id: lossy_text(d.subrange(p + 14, p + 14 + n)),
                        },
                        p + 14 + n,
                    ),
                ),
            }
        }
    }
}

/// What reading `count` entries from offset `p` of `d` gives, with the
/// offset after them.
pub open spec fn parse_file_list(d: Seq<u8>, p: int, count: nat) -> Result<
    (Seq<ExternalFileModel>, int),
    ReadError,
>
    decreases count,
{
    if count == 0 {
        Ok((Seq::<ExternalFileModel>::empty(), p))
    } else {
        match parse_file_entry(d, p) {
            Err(e) => Err(e),
            Ok((t, q)) => prepend(seq![t], parse_file_list(d, q, (count - 1) as nat)),
        }
    }
}

/// What reading an external files chunk from `d` gives.
pub open spec fn parse_external_files(d: Seq<u8>) -> Result<Seq<ExternalFileModel>, ReadError> {
    if !avail(d, 0, 12) {
        Err(ReadError::UnexpectedEnd)
    } else {
        match parse_file_list(d, 12, u32_at(d, 0) as nat) {
            Err(e) => Err(e),
            Ok((es, _)) => Ok(es),
        }
    }
}

/// Whether an external files chunk can be written: at most `u32::MAX`
/// entries, each name fitting a `u16` byte count.
pub open spec fn external_files_well_formed(es: Seq<ExternalFileModel>) -> bool {
    &&& es.len() <= u32::MAX
    &&& forall|i: int|
        0 <= i < es.len() ==> encode_utf8_len(#[trigger] es[i].file_name_or_id) <= u16::MAX
}

impl ExternalFileEntry {
    /// Appends the entry's bytes.
    pub fn write(&self, data: &mut Vec<u8>)
        requires
            encode_utf8_len(self.file_name_or_id@) <= u16::MAX,
        ensures
            final(data)@ == old(data)@ + file_entry_bytes(self@),
    {
        put_u32_le(data, self.entry_id);
        let code: u8 = match self.file_type {
            ExternalFileType::Palette => 0,
            ExternalFileType::Tileset => 1,
            ExternalFileType::ExtensionProperties => 2,
            ExternalFileType::ExtensionTileManagement => 3,
        };
        put_u8(data, code);
        put_zeros(data, 7);
        put_name(data, &self.file_name_or_id);
        assert(final(data)@ =~= old(data)@ + file_entry_bytes(self@));
    }

    /// Reads an entry at `pos`: the result is [`parse_file_entry`] there.
    pub fn read(data: &[u8], pos: usize) -> (r: Result<(ExternalFileEntry, usize), ReadError>)
        requires
            pos <= data@.len(),
        ensures
            match parse_file_entry(data@, pos as int) {
                Ok((m, q)) => r matches Ok((e, p)) && e@ == m && p == q,
                Err(e) => r matches Err(x) && x == e,
            },
    {
        let (entry_id, p) = read_u32(data, pos)?;
        let (type_val, p) = read_u8(data, p)?;
        let p = skip_bytes(data, p, 7)?;
        let (file_name_or_id, p) = read_lossy_name(data, p)?;
        let file_type = if type_val == 0 {
            ExternalFileType::Palette
        } else if type_val == 1 {
            ExternalFileType::Tileset
        } else if type_val == 2 {
            ExternalFileType::ExtensionProperties
        } else if type_val == 3 {
            ExternalFileType::ExtensionTileManagement
        } else {
            return Err(ReadError::InvalidExternalFileType(type_val));
        };
        Ok((ExternalFileEntry { entry_id, file_type, file_name_or_id }, p))
    }
}

impl ExternalFilesChunk {
    /// The chunk type of an external files chunk.
    pub fn chunk_type(&self) -> (t: u16)
        ensures
            t == EXTERNAL_FILES_CHUNK_TYPE,
    {
        EXTERNAL_FILES_CHUNK_TYPE
    }

    /// The chunk's bytes.
    pub fn to_block(&self) -> (b: Vec<u8>)
        requires
            external_files_well_formed(self@),
        ensures
            b@ == external_files_bytes(self@),
    {
        let mut data: Vec<u8> = Vec::new();
        put_u32_le(&mut data, self.entries.len() as u32);
        put_zeros(&mut data, 8);
        let ghost head = data@;
        let mut i: usize = 0;
        while i < self.entries.len()
            invariant
                i <= self.entries@.len(),
                external_files_well_formed(self@),
                data@ == head + file_list_bytes(file_models(self.entries@).take(i as int)),
            decreases self.entries@.len() - i,
        {
            assert(encode_utf8_len(file_models(self.entries@)[i as int].file_name_or_id)
                <= u16::MAX);
            let ghost prev = file_models(self.entries@).take(i as int);
            self.entries[i].write(&mut data);
            proof {
                let next = file_models(self.entries@).take(i + 1);
                assert(next =~= prev.push(self.entries@[i as int]@));
                assert(Seq::new(next.len(), |j: int| file_entry_bytes(next[j])) =~= Seq::new(
                    prev.len(),
                    |j: int| file_entry_bytes(prev[j]),
                ).push(file_entry_bytes(self.entries@[i as int]@)));
                lemma_flat_push(
                    Seq::new(prev.len(), |j: int| file_entry_bytes(prev[j])),
                    file_entry_bytes(self.entries@[i as int]@),
                );
            }
            i = i + 1;
        }
        assert(file_models(self.entries@).take(i as int) =~= self@);
        data
    }

    /// Reads an external files chunk: the result is [`parse_external_files`]
    /// of the bytes.
    pub fn from_block(data: &[u8]) -> (r: Result<ExternalFilesChunk, ReadError>)
        ensures
            match parse_external_files(data@) {
                Ok(m) => r matches Ok(c) && c@ == m,
                Err(e) => r matches Err(x) && x == e,
            },
    {
        let (num_entries, p) = read_u32(data, 0)?;
        let mut p = skip_bytes(data, p, 8)?;
        let mut entries: Vec<ExternalFileEntry> = Vec::new();
        let mut i: u32 = 0;
        while i < num_entries
            invariant
                i <= num_entries,
                p <= data@.len(),
                avail(data@, 0, 12),
                num_entries == u32_at(data@, 0),
                parse_file_list(data@, 12, num_entries as nat) == prepend(
                    file_models(entries@),
                    parse_file_list(data@, p as int, (num_entries - i) as nat),
                ),
            decreases num_entries - i,
        {
            let ghost acc = file_models(entries@);
            match ExternalFileEntry::read(data, p) {
                Ok((entry, q)) => {
                    proof {
                        lemma_prepend_push(
                            acc,
                            entry@,
                            parse_file_list(data@, q as int, (num_entries - i - 1) as nat),
                        );
                    }
                    entries.push(entry);
                    assert(file_models(entries@) =~= acc.push(entry@));
                    p = q;
                },
                Err(e) => {
                    return Err(e);
                },
            }
            i = i + 1;
        }
        assert(file_models(entries@) + Seq::<ExternalFileModel>::empty() =~= file_models(
            entries@,
        ));
        Ok(ExternalFilesChunk { entries })
    }
}

/// The entries written one after another read back as the entries.
proof fn lemma_file_list_roundtrip(es: Seq<ExternalFileModel>, d: Seq<u8>, p: int)
    requires
        forall|i: int|
            0 <= i < es.len() ==> encode_utf8_len(#[trigger] es[i].file_name_or_id) <= u16::MAX,
        0 <= p,
        p + file_list_bytes(es).len() <= d.len(),
        d.subrange(p, p + file_list_bytes(es).len()) == file_list_bytes(es),
    ensures
        parse_file_list(d, p, es.len()) == Ok::<(Seq<ExternalFileModel>, int), ReadError>(
            (es, p + file_list_bytes(es).len()),
        ),
    decreases es.len(),
{
    if es.len() > 0 {
        let e = es[0];
        let rest = es.skip(1);
        let eb = file_entry_bytes(e);
        assert(Seq::new(es.len(), |i: int| file_entry_bytes(es[i])).skip(1) =~= Seq::new(
            rest.len(),
            |i: int| file_entry_bytes(rest[i]),
        ));
        assert(file_list_bytes(es) =~= eb + file_list_bytes(rest));
        let whole = d.subrange(p, p + file_list_bytes(es).len());
        assert(d.subrange(p, p + 4) =~= u32_le(e.entry_id)) by {
            assert(d.subrange(p, p + 4) =~= whole.subrange(0, 4));
        }
        lemma_u32_at(d, p, e.entry_id);
        assert(d[p + 4] == whole[4]);
        let nb = name_bytes(e.file_name_or_id);
        assert(d.subrange(p + 12, p + 12 + nb.len()) =~= nb) by {
            assert(d.subrange(p + 12, p + 12 + nb.len()) =~= whole.subrange(
                12,
                12 + nb.len() as int,
            ));
        }
        lemma_name_roundtrip(e.file_name_or_id, d, p + 12);
        let q = p + eb.len();
        assert(d.subrange(q, q + file_list_bytes(rest).len()) =~= file_list_bytes(rest)) by {
            assert(d.subrange(q, q + file_list_bytes(rest).len()) =~= whole.subrange(
                eb.len() as int,
                file_list_bytes(es).len() as int,
            ));
        }
        assert forall|i: int| 0 <= i < rest.len() implies encode_utf8_len(
            #[trigger] rest[i].file_name_or_id,
        ) <= u16::MAX by {
            assert(rest[i] == es[i + 1]);
        }
        lemma_file_list_roundtrip(rest, d, q);
        assert(seq![e] + rest =~= es);
        match file_type_of_code(file_type_code(e.file_type)) {
            Some(x) => assert(x == e.file_type),
            None => assert(false),
        }
    } else {
        assert(file_list_bytes(es).len() == 0);
        assert(es =~= Seq::<ExternalFileModel>::empty());
    }
}

/// Reading a written external files chunk gives it back, for every chunk
/// that can be written.
pub proof fn lemma_external_files_roundtrip(es: Seq<ExternalFileModel>)
    requires
        external_files_well_formed(es),
    ensures
        parse_external_files(external_files_bytes(es)) == Ok::<Seq<ExternalFileModel>, ReadError>(
            es,
        ),
{
    let d = external_files_bytes(es);
    assert(d.subrange(0, 4) =~= u32_le(es.len() as u32));
    lemma_u32_at(d, 0, es.len() as u32);
    assert(d.subrange(12, 12 + file_list_bytes(es).len() as int) =~= file_list_bytes(es));
    lemma_file_list_roundtrip(es, d, 12);
}

} // verus!
