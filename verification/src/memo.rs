//! The memo store: the companion of a table that holds the long texts its
//! memo fields point to, in blocks of a fixed size.
//!
//! A store comes in one of three layouts. The reader holds the bytes of the
//! store and a scratch buffer of one block, which it reuses from one lookup
//! to the next.

use vstd::prelude::*;

use crate::byte_order::{
    be_u16, be_u32, le_u16, le_u32, read_u16_be, read_u16_le, read_u32_be, read_u32_le,
};
use crate::error::ErrorKind;
use crate::padding::{before_byte, drop_trailing, find_byte, trailing_end};

verus! {

/// The block size of a store whose header declares none.
pub const DEFAULT_BLOCK_SIZE: u32 = 512;

/// The byte that ends a text in a store of the first layout.
pub const DBASE_TEXT_END: u8 = 0x1A;

/// The byte that ends a text early in a store of the dBase IV layout.
pub const DBASE4_TEXT_END: u8 = 0x1F;

/// The layouts of a memo store.
#[derive(Debug, PartialEq, Eq, Copy, Clone, Structural)]
pub enum MemoFileType {
    DbaseMemo,
    DbaseMemo4,
    FoxBaseMemo,
}

/// What the header of a memo store says, whatever its layout.
#[derive(Debug, Copy, Clone, PartialEq, Eq, Structural)]
pub struct MemoHeader {
    /// The index of the block that the next text written would take.
    pub next_available_block_index: u32,
    /// The size of a block in bytes.
    pub block_size: u32,
}

/// The header that the bytes `src` of a store of layout `memo_type` start
/// with; `None` where they end before the header does.
///
/// The first four bytes are the index of the next free block, least
/// significant byte first. In the two dBase layouts the next two bytes are
/// the block size, least significant byte first, where zero stands for 512.
/// In the FoxBase layout two bytes are passed over, and the two after them
/// are the block size, most significant byte first.
pub open spec fn memo_header_of(src: Seq<u8>, memo_type: MemoFileType) -> Option<MemoHeader> {
    match memo_type {
        MemoFileType::DbaseMemo | MemoFileType::DbaseMemo4 => {
            if src.len() < 6 {
                None
            } else {
                Some(
                    MemoHeader {
                        next_available_block_index: le_u32(src) as u32,
                        block_size: if le_u16(src.skip(4)) == 0 {
                            DEFAULT_BLOCK_SIZE
                        } else {
                            le_u16(src.skip(4)) as u32
                        },
                    },
                )
            }
        },
        MemoFileType::FoxBaseMemo => {
            if src.len() < 8 {
                None
            } else {
                Some(
                    MemoHeader {
                        next_available_block_index: le_u32(src) as u32,
                        block_size: be_u16(src.skip(6)) as u32,
                    },
                )
            }
        },
    }
}

/// The version mark of a store of the first dBase layout, which stands at
/// the seventeenth byte of its header.
pub const DBASE_VERSION_MARK: u8 = 0x03;

/// The layout that the header of a memo store shows, if the store has the
/// eight bytes that every header has.
///
/// A store of the first dBase layout carries its version mark at the
/// seventeenth byte. Of the other two, the dBase IV layout declares its
/// block size in the fifth and sixth byte, which the FoxBase layout leaves
/// unused and zero.
pub open spec fn layout_shown(src: Seq<u8>) -> Option<MemoFileType> {
    if src.len() < 8 {
        None
    } else if src.len() > 16 && src[16] == DBASE_VERSION_MARK {
        Some(MemoFileType::DbaseMemo)
    } else if le_u16(src.skip(4)) != 0 {
        Some(MemoFileType::DbaseMemo4)
    } else {
        Some(MemoFileType::FoxBaseMemo)
    }
}

impl MemoFileType {
    /// The layout that the header at the start of `src` shows; `None` where
    /// the bytes end before the header does.
    pub fn detect(src: &[u8]) -> (layout: Option<MemoFileType>)
        ensures
            layout == layout_shown(src@),
    {
        if src.len() < 8 {
            return None;
        }
        if src.len() > 16 && src[16] == DBASE_VERSION_MARK {
            return Some(MemoFileType::DbaseMemo);
        }
        let rest = vstd::slice::slice_subrange(src, 4, src.len());
        assert(rest@ =~= src@.skip(4));
        if read_u16_le(rest) != 0 {
            Some(MemoFileType::DbaseMemo4)
        } else {
            Some(MemoFileType::FoxBaseMemo)
        }
    }
}

impl MemoHeader {
    /// Reads the header of a store of layout `memo_type` from the start of
    /// its bytes. Bytes that end before the header does are an early end of
    /// the source.
    pub fn read_from(src: &[u8], memo_type: MemoFileType) -> (r: Result<MemoHeader, ErrorKind>)
        ensures
            r == match memo_header_of(src@, memo_type) {
                Some(header) => Ok::<MemoHeader, ErrorKind>(header),
                None => Err(ErrorKind::UnexpectedEof),
            },
    {
        if src.len() < 6 {
            return Err(ErrorKind::UnexpectedEof);
        }
        let next_available_block_index = read_u32_le(src);
        let block_size: u32 = match memo_type {
            MemoFileType::DbaseMemo | MemoFileType::DbaseMemo4 => {
                let rest = vstd::slice::slice_subrange(src, 4, src.len());
                assert(rest@ =~= src@.skip(4));
                let size = read_u16_le(rest);
                if size == 0 {
                    DEFAULT_BLOCK_SIZE
                } else {
                    size as u32
                }
            },
            MemoFileType::FoxBaseMemo => {
                if src.len() < 8 {
                    return Err(ErrorKind::UnexpectedEof);
                }
                let rest = vstd::slice::slice_subrange(src, 6, src.len());
                assert(rest@ =~= src@.skip(6));
                read_u16_be(rest) as u32
            },
        };
        Ok(MemoHeader { next_available_block_index, block_size })
    }
}

/// `new` laid over the start of `old`: the bytes of `new`, and behind them
/// what `old` holds beyond the length of `new`.
pub open spec fn overlay(old: Seq<u8>, new: Seq<u8>) -> Seq<u8> {
    if new.len() >= old.len() {
        new
    } else {
        new + old.skip(new.len() as int)
    }
}

/// The bytes that `source` holds from `offset` on, `n` of them or as many as
/// there are.
pub open spec fn bytes_at(source: Seq<u8>, offset: int, n: int) -> Seq<u8> {
    if offset >= source.len() {
        Seq::empty()
    } else if offset + n > source.len() {
        source.skip(offset)
    } else {
        source.subrange(offset, offset + n)
    }
}

/// The content of the block that starts at `offset` in a store whose blocks
/// declare their length: four bytes that are passed over, four bytes of the
/// length, and then as many bytes of content. `None` where the store ends
/// before the content does.
pub open spec fn payload_at(source: Seq<u8>, offset: int, big_endian: bool) -> Option<Seq<u8>> {
    if offset + 8 > source.len() {
        None
    } else {
        let length_field = source.subrange(offset + 4, offset + 8);
        let length = if big_endian {
            be_u32(length_field)
        } else {
            le_u32(length_field)
        };
        if offset + 8 + length > source.len() {
            None
        } else {
            Some(source.subrange(offset + 8, offset + 8 + length))
        }
    }
}

/// The state of a memo reader: the layout and the header of its store, the
/// bytes of the store, and what its scratch buffer holds.
pub struct MemoReaderView {
    pub memo_file_type: MemoFileType,
    pub header: MemoHeader,
    pub source: Seq<u8>,
    pub buffer: Seq<u8>,
}

impl MemoReaderView {
    /// The scratch buffer has room for one block, and in the first dBase
    /// layout it is exactly one block long.
    pub open spec fn wf(self) -> bool {
        &&& self.buffer.len() >= self.header.block_size
        &&& self.memo_file_type == MemoFileType::DbaseMemo ==> self.buffer.len()
            == self.header.block_size
    }
}

/// What a lookup comes to: the text, or the failure, and what the scratch
/// buffer holds after it.
pub struct MemoRead {
    pub result: Result<Seq<u8>, ErrorKind>,
    pub buffer: Seq<u8>,
}

/// The lookup of the text at the block `index` by a reader in state `r`.
///
/// The block starts at `index` times the block size. In the FoxBase layout
/// the text is the declared content without the zero bytes at its end. In
/// the dBase IV layout it is the declared content up to its first byte
/// `0x1F`. In both, a store that ends before the content does is an early
/// end of the source, and the content read takes the start of the buffer.
///
/// In the first dBase layout one block is read over the buffer, which is
/// one block long, and the text is what the buffer then holds up to its
/// first byte `0x1A`. A store that ends before the block does is tolerated
/// for the last block in use only: the bytes that are there take the start
/// of the buffer, and the rest of the buffer stays as the lookup before
/// left it.
pub open spec fn memo_read(r: MemoReaderView, index: u32) -> MemoRead {
    let offset = index as int * r.header.block_size as int;
    match r.memo_file_type {
        MemoFileType::FoxBaseMemo => match payload_at(r.source, offset, true) {
            Some(content) => MemoRead {
                result: Ok(drop_trailing(content, 0u8)),
                buffer: overlay(r.buffer, content),
            },
            None => MemoRead { result: Err(ErrorKind::UnexpectedEof), buffer: r.buffer },
        },
        MemoFileType::DbaseMemo4 => match payload_at(r.source, offset, false) {
            Some(content) => MemoRead {
                result: Ok(before_byte(content, DBASE4_TEXT_END)),
                buffer: overlay(r.buffer, content),
            },
            None => MemoRead { result: Err(ErrorKind::UnexpectedEof), buffer: r.buffer },
        },
        MemoFileType::DbaseMemo => {
            let block = bytes_at(r.source, offset, r.header.block_size as int);
            if block.len() == r.header.block_size || index + 1
                == r.header.next_available_block_index {
                let buffer = overlay(r.buffer, block);
                MemoRead { result: Ok(before_byte(buffer, DBASE_TEXT_END)), buffer }
            } else {
                MemoRead { result: Err(ErrorKind::UnexpectedEof), buffer: r.buffer }
            }
        },
    }
}

/// A lookup leaves the scratch buffer with room for one block, and in the
/// first dBase layout exactly one block long.
pub proof fn lemma_memo_read_keeps_buffer(r: MemoReaderView, index: u32)
    requires
        r.wf(),
    ensures
        (MemoReaderView { buffer: memo_read(r, index).buffer, ..r }).wf(),
        memo_read(r, index).buffer.len() >= r.buffer.len(),
{
}

/// The content of the block that starts at `offset`, in a store whose
/// blocks declare their length.
fn read_payload(source: &[u8], offset: u64, big_endian: bool) -> (r: Option<&[u8]>)
    ensures
        match r {
            Some(content) => payload_at(source@, offset as int, big_endian) == Some(content@),
            None => payload_at(source@, offset as int, big_endian) is None,
        },
{
    let len = source.len();
    if offset > len as u64 || len as u64 - offset < 8 {
        return None;
    }
    let start = offset as usize;
    let length_field = vstd::slice::slice_subrange(source, start + 4, start + 8);
    let length = if big_endian {
        read_u32_be(length_field)
    } else {
        read_u32_le(length_field)
    };
    if ((len - start - 8) as u64) < length as u64 {
        return None;
    }
    Some(vstd::slice::slice_subrange(source, start + 8, start + 8 + length as usize))
}

/// The bytes that `source` holds from `offset` on, `n` of them or as many as
/// there are.
fn read_available(source: &[u8], offset: u64, n: usize) -> (r: &[u8])
    ensures
        r@ == bytes_at(source@, offset as int, n as int),
{
    let len = source.len();
    if offset >= len as u64 {
        proof {
            assert(source@.subrange(0, 0) =~= Seq::<u8>::empty());
        }
        vstd::slice::slice_subrange(source, 0, 0)
    } else {
        let start = offset as usize;
        if len - start < n {
            proof {
                assert(source@.subrange(start as int, len as int) =~= source@.skip(start as int));
            }
            vstd::slice::slice_subrange(source, start, len)
        } else {
            vstd::slice::slice_subrange(source, start, start + n)
        }
    }
}

/// A reader of the texts of a memo store.
pub struct MemoReader {
    memo_file_type: MemoFileType,
    header: MemoHeader,
    source: Vec<u8>,
    internal_buffer: Vec<u8>,
}

impl View for MemoReader {
    type V = MemoReaderView;

    closed spec fn view(&self) -> MemoReaderView {
        MemoReaderView {
            memo_file_type: self.memo_file_type,
            header: self.header,
            source: self.source@,
            buffer: self.internal_buffer@,
        }
    }
}

impl MemoReader {
    #[verifier::type_invariant]
    spec fn well_formed(self) -> bool {
        self@.wf()
    }

    /// A reader of the store of layout `memo_type` whose bytes are `src`.
    /// Its scratch buffer is one block of zero bytes. A store that ends
    /// before its header does is an early end of the source.
    pub fn new(memo_type: MemoFileType, src: Vec<u8>) -> (r: Result<MemoReader, ErrorKind>)
        ensures
            match memo_header_of(src@, memo_type) {
                Some(header) => r is Ok && r->Ok_0@.wf() && r->Ok_0@ == (MemoReaderView {
                    memo_file_type: memo_type,
                    header,
                    source: src@,
                    buffer: Seq::new(header.block_size as nat, |i: int| 0u8),
                }),
                None => r is Err && r->Err_0 == ErrorKind::UnexpectedEof,
            },
    {
        let header = match MemoHeader::read_from(src.as_slice(), memo_type) {
            Ok(header) => header,
            Err(e) => {
                return Err(e);
            },
        };
        let mut internal_buffer: Vec<u8> = Vec::new();
        let size = header.block_size as usize;
        while internal_buffer.len() < size
            invariant
                internal_buffer@.len() <= size,
                forall|i: int| 0 <= i < internal_buffer@.len() ==> internal_buffer@[i] == 0u8,
            decreases size - internal_buffer@.len(),
        {
            internal_buffer.push(0);
        }
        proof {
            assert(internal_buffer@ =~= Seq::new(header.block_size as nat, |i: int| 0u8));
        }
        Ok(MemoReader { memo_file_type: memo_type, header, source: src, internal_buffer })
    }

    /// A reader of the store whose bytes are `src`, in the layout that its
    /// header shows. A store that ends before its header does is an early
    /// end of the source.
    pub fn open(src: Vec<u8>) -> (r: Result<MemoReader, ErrorKind>)
        ensures
            match layout_shown(src@) {
                Some(memo_type) => memo_header_of(src@, memo_type) is Some && r is Ok
                    && r->Ok_0@.wf() && r->Ok_0@ == (MemoReaderView {
                    memo_file_type: memo_type,
                    header: memo_header_of(src@, memo_type)->Some_0,
                    source: src@,
                    buffer: Seq::new(
                        memo_header_of(src@, memo_type)->Some_0.block_size as nat,
                        |i: int| 0u8,
                    ),
                }),
                None => r is Err && r->Err_0 == ErrorKind::UnexpectedEof,
            },
    {
        match MemoFileType::detect(src.as_slice()) {
            Some(memo_type) => MemoReader::new(memo_type, src),
            None => Err(ErrorKind::UnexpectedEof),
        }
    }

    /// The layout of the store.
    pub fn memo_file_type(&self) -> (t: MemoFileType)
        ensures
            t == self@.memo_file_type,
            self@.wf(),
    {
        proof {
            use_type_invariant(self);
        }
        self.memo_file_type
    }

    /// The header of the store.
    pub fn header(&self) -> (h: MemoHeader)
        ensures
            h == self@.header,
    {
        self.header
    }

    /// Looks up the text that starts at the block `index`, and returns its
    /// bytes. The scratch buffer keeps what was read.
    pub fn read_data_at(&mut self, index: u32) -> (r: Result<Vec<u8>, ErrorKind>)
        ensures
            old(self)@.wf(),
            final(self)@.wf(),
            final(self)@ == (MemoReaderView {
                buffer: memo_read(old(self)@, index).buffer,
                ..old(self)@
            }),
            match r {
                Ok(text) => memo_read(old(self)@, index).result == Ok::<Seq<u8>, ErrorKind>(text@),
                Err(e) => memo_read(old(self)@, index).result == Err::<Seq<u8>, ErrorKind>(e),
            },
    {
        proof {
            use_type_invariant(&*self);
            lemma_memo_read_keeps_buffer(self@, index);
        }
        assert(index as int * self.header.block_size as int <= 0xffff_ffff * 0xffff_ffff)
            by (nonlinear_arith)
            requires
                0 <= index <= 0xffff_ffff,
                0 <= self.header.block_size <= 0xffff_ffff,
        ;
        let offset: u64 = index as u64 * self.header.block_size as u64;
        let layout = self.memo_file_type;
        let read: Option<&[u8]> = match layout {
            MemoFileType::FoxBaseMemo => read_payload(self.source.as_slice(), offset, true),
            MemoFileType::DbaseMemo4 => read_payload(self.source.as_slice(), offset, false),
            MemoFileType::DbaseMemo => {
                let size = self.header.block_size as usize;
                let block = read_available(self.source.as_slice(), offset, size);
                let last = self.header.next_available_block_index;
                if block.len() == size || (index < 0xffff_ffff && index + 1 == last) {
                    Some(block)
                } else {
                    None
                }
            },
        };
        let content = match read {
            Some(content) => content,
            None => {
                return Err(ErrorKind::UnexpectedEof);
            },
        };
        // What was read takes the start of the scratch buffer, which grows
        // only where the content is longer than it.
        if content.len() > self.internal_buffer.len() {
            self.internal_buffer = vstd::slice::slice_to_vec(content);
        } else {
            let mut i: usize = 0;
            while i < content.len()
                invariant
                    i <= content@.len(),
                    content@.len() <= old(self).internal_buffer@.len(),
                    old(self)@.wf(),
                    self.memo_file_type == old(self).memo_file_type,
                    self.header == old(self).header,
                    self.source@ == old(self).source@,
                    self.internal_buffer@.len() == old(self).internal_buffer@.len(),
                    self.internal_buffer@ == overlay(
                        old(self).internal_buffer@,
                        content@.subrange(0, i as int),
                    ),
                decreases content@.len() - i,
            {
                let ghost done = content@.subrange(0, i as int);
                let ghost next = content@.subrange(0, i + 1);
                self.internal_buffer[i] = content[i];
                proof {
                    assert(next =~= done.push(content@[i as int]));
                    assert(self.internal_buffer@ =~= overlay(old(self).internal_buffer@, next));
                }
                i += 1;
            }
            proof {
                assert(content@.subrange(0, i as int) =~= content@);
            }
        }
        match layout {
            MemoFileType::FoxBaseMemo => {
                let end = trailing_end(content, 0);
                Ok(vstd::slice::slice_to_vec(vstd::slice::slice_subrange(content, 0, end)))
            },
            MemoFileType::DbaseMemo4 => {
                let end = find_byte(content, DBASE4_TEXT_END);
                Ok(vstd::slice::slice_to_vec(vstd::slice::slice_subrange(content, 0, end)))
            },
            MemoFileType::DbaseMemo => {
                let buffer = self.internal_buffer.as_slice();
                let end = find_byte(buffer, DBASE_TEXT_END);
                Ok(vstd::slice::slice_to_vec(vstd::slice::slice_subrange(buffer, 0, end)))
            },
        }
    }
}

} // verus!
