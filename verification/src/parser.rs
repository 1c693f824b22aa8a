//! The container scanner and the indexing engine.
//!
//! A container file is a run of frames: a four byte marker, a four byte
//! little-endian length, and that many bytes of payload. The scanner cuts the
//! payloads out of a file up to the first place that is no whole frame; the
//! engine decodes each payload and writes the block at the next height.
use crate::codec::{
    decode_block, decoded_block, deserialize_block, deserialized_block, hex_bytes, hex_decode,
    is_hex_text,
};
use crate::db::{insert_block, Store};
use crate::store_model::StoreModel;
use vstd::prelude::*;
use vstd::slice::{slice_subrange, slice_to_vec};
use vstd::string::StrSliceExecFns;

verus! {

/// The marker that starts each frame of a regtest container file.
pub const REGTEST_MAGIC: [u8; 4] = [0x83, 0x9d, 0xe4, 0x11];

/// The number that four bytes at `at` spell, lowest byte first.
pub open spec fn le_u32(data: Seq<u8>, at: int) -> int {
    data[at] as int + 256 * (data[at + 1] as int) + 65536 * (data[at + 2] as int) + 16777216 * (
    data[at + 3] as int)
}

/// Where the frame that starts at `pos` ends, if a whole frame starts
/// there: the marker is the expected one, and the payload that the length
/// announces lies within the data.
pub open spec fn frame_end(data: Seq<u8>, pos: int, magic: Seq<u8>) -> Option<int> {
    if 0 <= pos && pos + 8 <= data.len() && data.subrange(pos, pos + 4) == magic && pos + 8
        + le_u32(data, pos + 4) <= data.len() {
        Some(pos + 8 + le_u32(data, pos + 4))
    } else {
        None
    }
}

/// The payloads of the frames that follow each other from `pos` on, up to
/// the first place at which no whole frame starts.
pub open spec fn payloads_from(data: Seq<u8>, pos: int, magic: Seq<u8>) -> Seq<Seq<u8>>
    decreases data.len() - pos,
{
    match frame_end(data, pos, magic) {
        Some(end) => seq![data.subrange(pos + 8, end)] + payloads_from(data, end, magic),
        None => Seq::empty(),
    }
}

/// Looks for a whole frame at `pos` and gives the place where it ends; its
/// payload lies between `pos + 8` and that place. A short rest, another
/// marker, or a length that reaches beyond the data give `None`.
pub fn next_frame(data: &[u8], pos: usize, magic: &[u8; 4]) -> (r: Option<usize>)
    ensures
        match r {
            Some(end) => frame_end(data@, pos as int, magic@) == Some(end as int),
            None => frame_end(data@, pos as int, magic@) is None,
        },
{
    let n = data.len();
    if pos > n || n - pos < 8 {
        return None;
    }
    if data[pos] != magic[0] || data[pos + 1] != magic[1] || data[pos + 2] != magic[2] || data[pos
        + 3] != magic[3] {
        proof {
            let head = data@.subrange(pos as int, pos + 4);
            assert(head[0] == data@[pos as int] && head[1] == data@[pos + 1] && head[2]
                == data@[pos + 2] && head[3] == data@[pos + 3]);
        }
        return None;
    }
    proof {
        assert(data@.subrange(pos as int, pos + 4) =~= magic@);
    }
    let len: u64 = data[pos + 4] as u64 + 256 * (data[pos + 5] as u64) + 65536 * (data[pos
        + 6] as u64) + 16777216 * (data[pos + 7] as u64);
    if len > (n - pos - 8) as u64 {
        return None;
    }
    Some(pos + 8 + len as usize)
}

/// What stands at a place of a container file.
#[derive(Debug, PartialEq, Eq)]
pub enum Parsed {
    /// A frame whose payload decodes to a block; the frame ends at `end`.
    Block { block: bitcoin::Block, end: usize },
    /// A frame whose payload the codec rejects; the frame ends at `end`.
    Rejected { end: usize },
    /// No whole frame: the usable data of the file ends here.
    End,
}

/// Reads the frame at `pos` and decodes its payload.
pub fn parse_block(data: &[u8], pos: usize, magic: &[u8; 4]) -> (r: Parsed)
    ensures
        match r {
            Parsed::Block { block, end } => frame_end(data@, pos as int, magic@) == Some(
                end as int,
            ) && decoded_block(data@.subrange(pos + 8, end as int)) == Some(block),
            Parsed::Rejected { end } => frame_end(data@, pos as int, magic@) == Some(end as int)
                && decoded_block(data@.subrange(pos + 8, end as int)) is None,
            Parsed::End => frame_end(data@, pos as int, magic@) is None,
        },
{
    match next_frame(data, pos, magic) {
        None => Parsed::End,
        Some(end) => match decode_block(slice_subrange(data, pos + 8, end)) {
            Some(block) => Parsed::Block { block, end },
            None => Parsed::Rejected { end },
        },
    }
}

/// Cuts the payloads out of a container file, in the order of their frames.
/// The scan of the file ends at the first place at which no whole frame
/// starts.
pub fn scan_file(data: &[u8], magic: &[u8; 4]) -> (r: Vec<Vec<u8>>)
    ensures
        r.deep_view() == payloads_from(data@, 0, magic@),
{
    let mut payloads: Vec<Vec<u8>> = Vec::new();
    let mut pos: usize = 0;
    loop
        invariant
            pos <= data.len(),
            payloads_from(data@, 0, magic@) == payloads.deep_view() + payloads_from(
                data@,
                pos as int,
                magic@,
            ),
        ensures
            payloads.deep_view() == payloads_from(data@, 0, magic@),
        decreases data.len() - pos,
    {
        match next_frame(data, pos, magic) {
            None => {
                assert(payloads.deep_view() + Seq::<Seq<u8>>::empty() =~= payloads.deep_view());
                break ;
            },
            Some(end) => {
                let ghost before = payloads.deep_view();
                let payload = slice_to_vec(slice_subrange(data, pos + 8, end));
                payloads.push(payload);
                proof {
                    let cut = data@.subrange(pos + 8, end as int);
                    assert(payloads[payloads.len() - 1].deep_view() =~= cut);
                    assert(payloads.deep_view() =~= before.push(cut));
                    assert(before + (seq![cut] + payloads_from(data@, end as int, magic@))
                        =~= before.push(cut) + payloads_from(data@, end as int, magic@));
                }
                pos = end;
            },
        }
    }
    payloads
}

/// A container file as it was read: its name and its bytes.
#[derive(Debug, PartialEq, Eq)]
pub struct ContainerFile {
    pub name: String,
    pub data: Vec<u8>,
}

/// What a [`ContainerFile`] holds.
#[verifier::ext_equal]
pub struct ContainerFileModel {
    pub name: Seq<char>,
    pub data: Seq<u8>,
}

impl View for ContainerFile {
    type V = ContainerFileModel;

    open spec fn view(&self) -> ContainerFileModel {
        ContainerFileModel { name: self.name@, data: self.data@ }
    }
}

impl DeepView for ContainerFile {
    type V = ContainerFileModel;

    open spec fn deep_view(&self) -> ContainerFileModel {
        self@
    }
}

/// Whether a file name is that of a container file: it starts with `blk`
/// and ends with `.dat`.
pub open spec fn is_container_name(name: Seq<char>) -> bool {
    let n = name.len() as int;
    &&& n >= 7
    &&& name[0] == 'b' && name[1] == 'l' && name[2] == 'k'
    &&& name[n - 4] == '.' && name[n - 3] == 'd' && name[n - 2] == 'a' && name[n - 1] == 't'
}

/// Tells whether a file name is that of a container file.
pub fn container_name(name: &str) -> (r: bool)
    ensures
        r == is_container_name(name@),
{
    let n = name.unicode_len();
    n >= 7 && name.get_char(0) == 'b' && name.get_char(1) == 'l' && name.get_char(2) == 'k'
        && name.get_char(n - 4) == '.' && name.get_char(n - 3) == 'd' && name.get_char(n - 2)
        == 'a' && name.get_char(n - 1) == 't'
}

/// The payloads of the container files among `files`, file by file in the
/// order given, frame by frame within each file. A file whose frames break
/// off gives what stands before the break, and the next file is scanned all
/// the same.
pub open spec fn container_payloads(files: Seq<ContainerFileModel>, magic: Seq<u8>) -> Seq<Seq<u8>>
    decreases files.len(),
{
    if files.len() == 0 {
        Seq::empty()
    } else {
        let before = container_payloads(files.drop_last(), magic);
        if is_container_name(files.last().name) {
            before + payloads_from(files.last().data, 0, magic)
        } else {
            before
        }
    }
}

/// Scans the container files among `files` and gives their payloads in
/// order.
pub fn scan_files(files: &Vec<ContainerFile>, magic: &[u8; 4]) -> (r: Vec<Vec<u8>>)
    ensures
        r.deep_view() == container_payloads(files.deep_view(), magic@),
{
    let mut payloads: Vec<Vec<u8>> = Vec::new();
    let mut i: usize = 0;
    while i < files.len()
        invariant
            i <= files.len(),
            payloads.deep_view() == container_payloads(files.deep_view().take(i as int), magic@),
        decreases files.len() - i,
    {
        proof {
            assert(files.deep_view().take(i + 1).drop_last() =~= files.deep_view().take(i as int));
            assert(files.deep_view().take(i + 1).last() == files[i as int]@);
        }
        if container_name(files[i].name.as_str()) {
            let ghost before = payloads.deep_view();
            let mut found = scan_file(files[i].data.as_slice(), magic);
            let ghost added = found.deep_view();
            payloads.append(&mut found);
            assert(payloads.deep_view() =~= before + added);
        }
        i += 1;
    }
    proof {
        assert(files.deep_view().take(i as int) =~= files.deep_view());
    }
    payloads
}

/// The state and the next height after one payload: a payload that decodes
/// is written at the height and the height advances by one; a payload that
/// the codec rejects is passed over.
pub open spec fn index_step(state: (StoreModel, int), payload: Seq<u8>) -> (StoreModel, int) {
    match decoded_block(payload) {
        Some(block) => (state.0.ingest(block, state.1 as u32), state.1 + 1),
        None => state,
    }
}

/// The state and the next height after a run over the payloads in order.
pub open spec fn index_run(store: StoreModel, height: int, payloads: Seq<Seq<u8>>) -> (
    StoreModel,
    int,
)
    decreases payloads.len(),
{
    if payloads.len() == 0 {
        (store, height)
    } else {
        index_step(index_run(store, height, payloads.drop_last()), payloads.last())
    }
}

/// The places of the payloads that the codec rejects, in order.
pub open spec fn rejected_places(payloads: Seq<Seq<u8>>) -> Seq<usize>
    decreases payloads.len(),
{
    if payloads.len() == 0 {
        Seq::empty()
    } else {
        let before = rejected_places(payloads.drop_last());
        if decoded_block(payloads.last()) is None {
            before.push((payloads.len() - 1) as usize)
        } else {
            before
        }
    }
}

/// The height at which the next block is written, after a write at `height`
/// that succeeded or failed: a block that was stored advances the height by
/// one, a failed write leaves it where it is.
pub fn height_after_write(height: u32, stored: bool) -> (next: u32)
    requires
        stored ==> height < u32::MAX,
    ensures
        next == if stored {
            height + 1
        } else {
            height as int
        },
{
    if stored {
        height + 1
    } else {
        height
    }
}

/// Why a run of the engine did not start.
#[derive(Debug, Clone, Copy, PartialEq, Eq, Structural)]
pub enum IndexError {
    /// There are more payloads than heights from the start height on.
    TooManyPayloads,
}

/// What a run of the engine reports: the height at which the next block
/// would be written, and the places of the payloads that the codec rejected.
#[derive(Debug, PartialEq, Eq)]
pub struct IndexReport {
    pub next_height: u32,
    pub rejected: Vec<usize>,
}

/// Runs the engine over payloads in order, starting at the height `start`.
/// Each payload that decodes is written at the current height, which then
/// advances by one; a payload that the codec rejects is passed over and its
/// place is reported. Where the heights from `start` on do not suffice for
/// the payloads, nothing is written.
pub fn index_payloads(store: &mut Store, payloads: &Vec<Vec<u8>>, start: u32) -> (r: Result<
    IndexReport,
    IndexError,
>)
    ensures
        final(store)@.wf(),
        start + payloads.len() > u32::MAX ==> r == Err::<IndexReport, IndexError>(
            IndexError::TooManyPayloads,
        ) && final(store)@ == old(store)@,
        start + payloads.len() <= u32::MAX ==> (r matches Ok(report) && (
            final(store)@,
            report.next_height as int,
        ) == index_run(old(store)@, start as int, payloads.deep_view()) && report.rejected@
            == rejected_places(payloads.deep_view())),
{
    proof {
        use_type_invariant(&*store);
    }
    if payloads.len() > (0xffff_ffff - start) as usize {
        return Err(IndexError::TooManyPayloads);
    }
    let ghost begin = store@;
    let mut height: u32 = start;
    let mut rejected: Vec<usize> = Vec::new();
    let mut i: usize = 0;
    while i < payloads.len()
        invariant
            i <= payloads.len(),
            start + payloads.len() <= u32::MAX,
            start <= height <= start + i,
            store@.wf(),
            (store@, height as int) == index_run(
                begin,
                start as int,
                payloads.deep_view().take(i as int),
            ),
            rejected@ == rejected_places(payloads.deep_view().take(i as int)),
        decreases payloads.len() - i,
    {
        proof {
            let all = payloads.deep_view();
            assert(all.take(i + 1).drop_last() =~= all.take(i as int));
            assert(all.take(i + 1).last() =~= payloads[i as int]@);
        }
        match decode_block(payloads[i].as_slice()) {
            Some(block) => {
                let stored = insert_block(store, &block, height).is_ok();
                height = height_after_write(height, stored);
            },
            None => {
                rejected.push(i);
            },
        }
        i += 1;
    }
    proof {
        assert(payloads.deep_view().take(i as int) =~= payloads.deep_view());
    }
    Ok(IndexReport { next_height: height, rejected })
}

/// Indexes the container files among `files`: scans them for payloads and
/// runs the engine over these from height 0. The report gives the number of
/// blocks that were written and the places, among the payloads of all the
/// files, of those that the codec rejected. Where there are more payloads
/// than heights nothing is written.
pub fn index_blocks(store: &mut Store, files: &Vec<ContainerFile>) -> (r: Result<
    IndexReport,
    IndexError,
>)
    ensures
        final(store)@.wf(),
        container_payloads(files.deep_view(), REGTEST_MAGIC@).len() > u32::MAX ==> r == Err::<
            IndexReport,
            IndexError,
        >(IndexError::TooManyPayloads) && final(store)@ == old(store)@,
        container_payloads(files.deep_view(), REGTEST_MAGIC@).len() <= u32::MAX ==> (
        r matches Ok(report) && (final(store)@, report.next_height as int) == index_run(
            old(store)@,
            0,
            container_payloads(files.deep_view(), REGTEST_MAGIC@),
        ) && report.rejected@ == rejected_places(
            container_payloads(files.deep_view(), REGTEST_MAGIC@),
        )),
{
    let magic = REGTEST_MAGIC;
    let payloads = scan_files(files, &magic);
    index_payloads(store, &payloads, 0)
}

/// Why a block that a remote node handed over was not written.
#[derive(Debug, Clone, Copy, PartialEq, Eq, Structural)]
pub enum RemoteError {
    /// The text is no hex text.
    BadHex,
    /// The bytes are not one block.
    BadBlock,
}

/// Decodes a block that a remote node handed over as hex text. A text that
/// is no hex text, and bytes that the codec rejects or does not use up, are
/// errors.
pub fn decode_remote_block(block_hex: &str) -> (r: Result<bitcoin::Block, RemoteError>)
    ensures
        !is_hex_text(block_hex@) ==> r == Err::<bitcoin::Block, RemoteError>(RemoteError::BadHex),
        is_hex_text(block_hex@) ==> match deserialized_block(hex_bytes(block_hex@)) {
            Some(block) => r == Ok::<bitcoin::Block, RemoteError>(block),
            None => r == Err::<bitcoin::Block, RemoteError>(RemoteError::BadBlock),
        },
{
    let bytes = match hex_decode(block_hex) {
        Some(bytes) => bytes,
        None => {
            return Err(RemoteError::BadHex);
        },
    };
    match deserialize_block(bytes.as_slice()) {
        Some(block) => Ok(block),
        None => Err(RemoteError::BadBlock),
    }
}

/// Writes a block that a remote node handed over as hex text, at the height
/// under which the node keeps it. A text that is no hex text, and bytes that
/// the codec rejects or does not use up, are errors that leave the store as
/// it was.
pub fn index_remote_block(store: &mut Store, block_hex: &str, height: u32) -> (r: Result<
    (),
    RemoteError,
>)
    ensures
        final(store)@.wf(),
        !is_hex_text(block_hex@) ==> r == Err::<(), RemoteError>(RemoteError::BadHex) && final(store)@
            == old(store)@,
        is_hex_text(block_hex@) && deserialized_block(hex_bytes(block_hex@)) is None ==> r == Err::<
            (),
            RemoteError,
        >(RemoteError::BadBlock) && final(store)@ == old(store)@,
        is_hex_text(block_hex@) ==> (deserialized_block(hex_bytes(block_hex@)) matches Some(block)
            ==> r is Ok && final(store)@ == old(store)@.ingest(block, height)),
{
    proof {
        use_type_invariant(&*store);
    }
    let block = match decode_remote_block(block_hex) {
        Ok(block) => block,
        Err(e) => {
            return Err(e);
        },
    };
    // The store refuses no decoded block.
    let written = insert_block(store, &block, height);
    assert(written is Ok);
    Ok(())
}

} // verus!
