use vstd::prelude::*;
use crate::parse::Parse;
use crate::parse::primitives::{be16, be32};
use crate::tables::{PrimaryTable, TableTag};

verus! {

/// One directory entry: where a table lies in the file and under which tag.
#[derive(Debug, Clone, Copy, PartialEq, Eq, Structural)]
pub struct TableDirRecord {
    pub tag: TableTag,
    pub check_sum: u32,
    pub offset: u32,
    pub length: u32,
}

/// An eagerly collected table directory.
#[derive(Debug)]
pub struct TableDirectory(pub Vec<TableDirRecord>);

/// The fixed part in front of the table directory.
#[derive(Debug, PartialEq, Eq, Structural)]
pub struct OffsetSubtable {
    pub scaler_type: ScalerType,
    pub num_tables: u16,
    /// (largest power of two at most `num_tables`) * 16
    pub search_range: u16,
    /// log2 of the largest power of two at most `num_tables`
    pub entry_selector: u16,
    /// `num_tables` * 16 - `search_range`
    pub range_shift: u16,
}

/// Which outline technology the file's magic number announces.
#[derive(Debug, Clone, Copy, PartialEq, Eq, Structural)]
pub enum ScalerType {
    /// `true` or 0x00010000
    TTF,
    /// `typ1`
    PostScript,
    /// `OTTO`
    OpenType,
}

/// The scaler type a 32-bit magic value announces, if any.
pub open spec fn spec_scaler_type(v: int) -> Option<ScalerType> {
    if v == 0x74727565 || v == 0x00010000 {
        Some(ScalerType::TTF)
    } else if v == 0x74797031 {
        Some(ScalerType::PostScript)
    } else if v == 0x4F54544F {
        Some(ScalerType::OpenType)
    } else {
        None
    }
}

/// The tag encoded by the first four bytes of `data`, if known.  The first
/// byte lands in the lowest position of the packed code.
pub open spec fn spec_tag_at(data: Seq<u8>) -> Option<TableTag> {
    TableTag::spec_from_code(
        (data[0] + data[1] * 0x100 + data[2] * 0x10000 + data[3] * 0x1000000) as u32,
    )
}

/// The directory record at the front of `data`: sixteen bytes of tag,
/// checksum, offset and length.  `None` when the bytes run out or the tag
/// is unknown.
pub open spec fn spec_dir_record(data: Seq<u8>) -> Option<TableDirRecord> {
    if data.len() < 16 {
        None
    } else {
        match spec_tag_at(data) {
            Some(tag) => Some(
                TableDirRecord {
                    tag,
                    check_sum: be32(data[4], data[5], data[6], data[7]) as u32,
                    offset: be32(data[8], data[9], data[10], data[11]) as u32,
                    length: be32(data[12], data[13], data[14], data[15]) as u32,
                },
            ),
            None => None,
        }
    }
}

/// Up to `n` consecutive directory records at the front of `data`; the run
/// stops early where a record does not decode.
pub open spec fn spec_dir_records(data: Seq<u8>, n: nat) -> Seq<TableDirRecord>
    decreases n,
{
    if n == 0 {
        Seq::empty()
    } else {
        match spec_dir_record(data) {
            None => Seq::empty(),
            Some(r) => seq![r] + spec_dir_records(data.skip(16), (n - 1) as nat),
        }
    }
}

/// The first record of `records` filed under `tag`.
pub open spec fn spec_first_with_tag(records: Seq<TableDirRecord>, tag: TableTag) -> Option<
    TableDirRecord,
>
    decreases records.len(),
{
    if records.len() == 0 {
        None
    } else if records[0].tag == tag {
        Some(records[0])
    } else {
        spec_first_with_tag(records.skip(1), tag)
    }
}

/// The offset subtable together with the bytes the directory records
/// start at.
#[derive(Debug)]
pub struct FontDirectory<'file> {
    pub offsets: OffsetSubtable,
    pub table_dir_start: &'file [u8],
}

impl<'a> FontDirectory<'a> {
    /// The directory's records.
    pub open spec fn spec_records(self) -> Seq<TableDirRecord> {
        spec_dir_records(self.table_dir_start@, self.offsets.num_tables as nat)
    }

    /// Find the record of the table that `T` is filed under.
    pub fn table_record<T: PrimaryTable>(&self) -> (r: Option<TableDirRecord>)
        ensures
            r == spec_first_with_tag(self.spec_records(), T::spec_tag()),
    {
        let tag = T::tag();
        let mut records = self.table_records();
        loop
            invariant
                tag == T::spec_tag(),
                spec_first_with_tag(self.spec_records(), T::spec_tag()) == spec_first_with_tag(
                    records.remaining(),
                    T::spec_tag(),
                ),
            decreases records.num_left,
        {
            let ghost before = records.remaining();
            match records.next() {
                None => {
                    return None;
                },
                Some(record) => {
                    proof {
                        assert(before.len() > 0);
                        assert(record == before[0]);
                        assert(spec_first_with_tag(before, T::spec_tag()) == if before[0].tag
                            == T::spec_tag() {
                            Some(before[0])
                        } else {
                            spec_first_with_tag(before.skip(1), T::spec_tag())
                        });
                    }
                    if record.tag == tag {
                        return Some(record);
                    }
                },
            }
        }
    }

    /// Walk the directory records from the front.
    pub fn table_records(&self) -> (r: TableRecords<'a>)
        ensures
            r.remaining() == self.spec_records(),
            r.num_left == self.offsets.num_tables,
    {
        TableRecords { next_record: self.table_dir_start, num_left: self.offsets.num_tables }
    }
}

/// Walks the run of directory records, at most `num_left` of them.
pub struct TableRecords<'file> {
    pub next_record: &'file [u8],
    pub num_left: u16,
}

impl<'a> TableRecords<'a> {
    /// Records not yet yielded.
    pub open spec fn remaining(self) -> Seq<TableDirRecord> {
        spec_dir_records(self.next_record@, self.num_left as nat)
    }

    /// Yield the next record; `None` when the count is exhausted, the bytes
    /// run out, or a tag is unknown.
    pub fn next(&mut self) -> (r: Option<TableDirRecord>)
        ensures
            old(self).remaining().len() == 0 ==> r is None && *final(self) == *old(self),
            old(self).remaining().len() > 0 ==> {
                &&& r == Some(old(self).remaining()[0])
                &&& final(self).remaining() == old(self).remaining().skip(1)
                &&& final(self).num_left == old(self).num_left - 1
            },
            final(self).num_left <= old(self).num_left,
    {
        if self.num_left < 1 {
            return None;
        }
        match table_directory_record(self.next_record) {
            None => {
                proof {
                    assert(old(self).remaining().len() == 0);
                }
                None
            },
            Some((next_record, record)) => {
                proof {
                    assert(old(self).remaining()[0] == record);
                    assert(old(self).remaining().skip(1) =~= spec_dir_records(
                        old(self).next_record@.skip(16),
                        (old(self).num_left - 1) as nat,
                    ));
                }
                self.num_left = self.num_left - 1;
                self.next_record = next_record;
                Some(record)
            },
        }
    }
}

/// Decode the sixteen-byte directory record at the front of `buf` and
/// return it with the bytes after it.  `None` when the bytes run out or
/// the tag is unknown.
pub fn table_directory_record<'a>(buf: &'a [u8]) -> (r: Option<(&'a [u8], TableDirRecord)>)
    ensures
        r is Some <==> spec_dir_record(buf@) is Some,
        r is Some ==> {
            &&& r.unwrap().1 == spec_dir_record(buf@).unwrap()
            &&& r.unwrap().0@ == buf@.skip(16)
        },
{
    if buf.len() < 16 {
        return None;
    }
    let code = (buf[0] as u32) + (buf[1] as u32) * 0x100 + (buf[2] as u32) * 0x10000 + (buf[3]
        as u32) * 0x1000000;
    match TableTag::from_code(code) {
        None => None,
        Some(tag) => {
            let rest = vstd::slice::slice_subrange(buf, 4, buf.len());
            let (rest, check_sum) = u32::parse(rest);
            let (rest, offset) = u32::parse(rest);
            let (rest, length) = u32::parse(rest);
            proof {
                assert(rest@ =~= buf@.skip(16));
            }
            Some((rest, TableDirRecord { tag, check_sum, offset, length }))
        },
    }
}

} // verus!
