//! Compound files, which is what workbooks with a password are kept in.
//!
//! Such a file is made of sectors of the same size behind a header that takes up one. The
//! header lists the sectors of a table, and the table says of each sector which one
//! follows it. The reader of workbooks follows the sectors without a test of where they
//! lead, so that this is tested beforehand.

use vstd::prelude::*;

verus! {

/// The first number that stands for no sector.
pub const RESERVED: u32 = 0xffff_fffa;

/// The first number that stands for no sector of the table.
pub const NO_TABLE: u32 = 0xffff_fffc;

/// What stands in place of the sector that follows the last one.
pub const END_OF_CHAIN: u32 = 0xffff_fffe;

/// The first bytes of a compound file.
pub open spec fn compound_signature() -> Seq<u8> {
    seq![0xd0u8, 0xcfu8, 0x11u8, 0xe0u8, 0xa1u8, 0xb1u8, 0x1au8, 0xe1u8]
}

/// A number of two bytes, the lower first.
pub open spec fn short_at(bytes: Seq<u8>, index: int) -> int {
    bytes[index] + 256 * bytes[index + 1]
}

/// A number of four bytes, the lowest first.
pub open spec fn long_at(bytes: Seq<u8>, index: int) -> u32 {
    (bytes[index] + 256 * bytes[index + 1] + 65536 * bytes[index + 2] + 16777216 * bytes[index
        + 3]) as u32
}

/// Whether the sectors are of the small size, 512 bytes. The large size is 4096 bytes.
pub open spec fn is_small(bytes: Seq<u8>) -> bool {
    short_at(bytes, 30) == 9
}

/// Whether some bytes begin with the header of a compound file: the signature, and the
/// sizes of its sectors.
pub open spec fn has_header(bytes: Seq<u8>) -> bool {
    &&& bytes.len() >= 512
    &&& bytes.take(8) == compound_signature()
    &&& is_small(bytes) || (short_at(bytes, 30) == 12 && bytes.len() >= 4096)
    &&& short_at(bytes, 32) == 6
}

/// How many bytes a number of sectors has.
pub open spec fn length_of(bytes: Seq<u8>, sectors: int) -> int {
    if is_small(bytes) {
        512 * sectors
    } else {
        4096 * sectors
    }
}

/// How many whole sectors the file has, with its header.
pub open spec fn sector_count(bytes: Seq<u8>) -> int {
    if is_small(bytes) {
        bytes.len() as int / 512
    } else {
        bytes.len() as int / 4096
    }
}

/// Where a sector is.
#[derive(Debug, Clone, Copy, PartialEq, Eq, Structural)]
pub enum Place {
    /// So far behind the end of the file that it is an error.
    Beyond,
    /// At the end of the file, or right behind it, so that not all of it is there.
    Partial,
    Whole,
}

/// Where a sector is.
pub open spec fn place_of(bytes: Seq<u8>, id: u32) -> Place {
    if id > sector_count(bytes) {
        Place::Beyond
    } else if id + 2 <= sector_count(bytes) {
        Place::Whole
    } else {
        Place::Partial
    }
}

/// How many numbers a sector holds.
pub open spec fn entry_count(bytes: Seq<u8>) -> nat {
    if is_small(bytes) {
        128
    } else {
        1024
    }
}

/// The numbers in a sector.
pub open spec fn entries_of(bytes: Seq<u8>, id: u32) -> Seq<u32> {
    Seq::new(entry_count(bytes), |k: int| long_at(bytes, length_of(bytes, id + 1) + 4 * k))
}

/// What comes of following sectors.
#[verifier::ext_equal]
pub enum Followed {
    /// They lead to where nothing is, or in a circle.
    Astray,
    /// They lead beyond the end of the file, which is an error.
    Failed,
    Read(Seq<u32>),
}

/// The sectors of the table, which the header lists first, given those that were read so
/// far, the next sector that lists more, and how many such there may be yet. The last
/// number of each is the next one.
pub open spec fn listed_sectors(
    bytes: Seq<u8>,
    listed: Seq<u32>,
    next: u32,
    left: nat,
) -> Followed
    decreases left,
{
    if next >= RESERVED {
        Followed::Read(listed)
    } else if left == 0 {
        Followed::Failed
    } else {
        match place_of(bytes, next) {
            Place::Beyond => Followed::Failed,
            Place::Partial => Followed::Astray,
            Place::Whole => {
                let entries = entries_of(bytes, next);
                listed_sectors(
                    bytes,
                    listed + entries.drop_last(),
                    entries.last(),
                    (left - 1) as nat,
                )
            },
        }
    }
}

/// The sectors of the table that the header lists.
pub open spec fn header_sectors(bytes: Seq<u8>) -> Seq<u32> {
    Seq::new(109, |k: int| long_at(bytes, 76 + 4 * k))
}

/// The table, given its sectors.
pub open spec fn table_of(bytes: Seq<u8>, ids: Seq<u32>) -> Followed
    decreases ids.len(),
{
    if ids.len() == 0 {
        Followed::Read(Seq::empty())
    } else {
        match table_of(bytes, ids.drop_last()) {
            Followed::Read(entries) => if ids.last() >= NO_TABLE {
                Followed::Read(entries)
            } else {
                match place_of(bytes, ids.last()) {
                    Place::Beyond => Followed::Failed,
                    Place::Partial => Followed::Astray,
                    Place::Whole => Followed::Read(entries + entries_of(bytes, ids.last())),
                }
            },
            other => other,
        }
    }
}

/// The sectors that follow one another from a first one until a length is reached, given
/// how many were read before, and how many there may be yet.
pub open spec fn chain_from(
    bytes: Seq<u8>,
    table: Seq<u32>,
    id: u32,
    length: nat,
    read: nat,
    left: nat,
) -> Followed
    decreases left,
{
    if id == END_OF_CHAIN {
        Followed::Read(Seq::empty())
    } else if left == 0 {
        Followed::Astray
    } else {
        match place_of(bytes, id) {
            Place::Beyond => Followed::Failed,
            Place::Partial => Followed::Astray,
            Place::Whole => if length_of(bytes, read as int + 1) >= length {
                Followed::Read(seq![id])
            } else if id >= table.len() {
                Followed::Astray
            } else {
                match chain_from(
                    bytes,
                    table,
                    table[id as int],
                    length,
                    read + 1,
                    (left - 1) as nat,
                ) {
                    Followed::Read(more) => Followed::Read(seq![id] + more),
                    other => other,
                }
            },
        }
    }
}

/// The sectors that follow one another from a first one until a length is reached.
pub open spec fn chain(bytes: Seq<u8>, table: Seq<u32>, id: u32, length: nat) -> Followed {
    chain_from(bytes, table, id, length, 0, sector_count(bytes) as nat)
}

/// The length of the stream that an entry of the directory describes.
pub open spec fn stream_length(bytes: Seq<u8>, entry: int) -> nat {
    if is_small(bytes) {
        long_at(bytes, entry + 120) as nat
    } else {
        (long_at(bytes, entry + 120) + 0x1_0000_0000 * long_at(bytes, entry + 124)) as nat
    }
}

/// Whether the lengths of all streams in the sectors of a directory fit the machine's word.
pub open spec fn lengths_fit(bytes: Seq<u8>, directory: Seq<u32>) -> bool {
    forall|i: int, k: int|
        0 <= i < directory.len() && 0 <= k < entry_count(bytes) / 32 ==> #[trigger] stream_length(
            bytes,
            length_of(bytes, #[trigger] directory[i] + 1) + 128 * k,
        ) <= usize::MAX
}

/// Whether the short streams, given the table and the first sector of the directory, can be
/// followed: the stream that holds them, and the table of its parts.
pub open spec fn short_streams_followed(bytes: Seq<u8>, table: Seq<u32>, first: u32) -> bool {
    let root = length_of(bytes, first + 1);
    let start = long_at(bytes, root + 116);
    let length = length_of(bytes, long_at(bytes, 64) as int);
    if short_at(bytes, 26) != 3 && start == END_OF_CHAIN {
        true
    } else if long_at(bytes, 64) == 0 {
        true
    } else {
        match chain(bytes, table, start, stream_length(bytes, root)) {
            Followed::Astray => false,
            Followed::Failed => true,
            Followed::Read(_) => length <= usize::MAX && !(chain(
                bytes,
                table,
                long_at(bytes, 60),
                length as nat,
            ) is Astray),
        }
    }
}

/// Whether the directory, given the table, can be followed.
pub open spec fn directory_followed(bytes: Seq<u8>, table: Seq<u32>) -> bool {
    match chain(bytes, table, long_at(bytes, 48), usize::MAX as nat) {
        Followed::Astray => false,
        Followed::Failed => true,
        Followed::Read(directory) => lengths_fit(bytes, directory) && (directory.len() > 0
            ==> short_streams_followed(bytes, table, directory[0])),
    }
}

/// Whether the table, given its sectors, and the directory can be followed.
pub open spec fn table_followed(bytes: Seq<u8>, ids: Seq<u32>) -> bool {
    match table_of(bytes, ids) {
        Followed::Astray => false,
        Followed::Failed => true,
        Followed::Read(table) => directory_followed(bytes, table),
    }
}

/// Whether the sectors of a compound file can be followed until they end or lead beyond the
/// end of the file.
pub open spec fn sectors_followed(bytes: Seq<u8>) -> bool {
    sector_count(bytes) < u32::MAX && match listed_sectors(
        bytes,
        header_sectors(bytes),
        long_at(bytes, 68),
        (sector_count(bytes) + 1) as nat,
    ) {
        Followed::Astray => false,
        Followed::Failed => true,
        Followed::Read(ids) => table_followed(bytes, ids),
    }
}

/// Whether some bytes are no compound file, or one whose sectors can be followed.
pub open spec fn can_be_followed(bytes: Seq<u8>) -> bool {
    has_header(bytes) ==> sectors_followed(bytes)
}

/// What comes of following sectors.
enum Followable {
    Astray,
    Failed,
    Read(Vec<u32>),
}

impl View for Followable {
    type V = Followed;

    closed spec fn view(&self) -> Followed {
        match self {
            Followable::Astray => Followed::Astray,
            Followable::Failed => Followed::Failed,
            Followable::Read(ids) => Followed::Read(ids@),
        }
    }
}

/// A number of two bytes, the lower first.
fn read_short(bytes: &Vec<u8>, index: usize) -> (number: u32)
    requires
        index + 2 <= bytes@.len(),
    ensures
        number == short_at(bytes@, index as int),
{
    assert(index + 2 <= bytes.len());
    bytes[index] as u32 + 256 * bytes[index + 1] as u32
}

/// A number of four bytes, the lowest first.
fn read_long(bytes: &Vec<u8>, index: usize) -> (number: u32)
    requires
        index + 4 <= bytes@.len(),
    ensures
        number == long_at(bytes@, index as int),
{
    assert(index + 4 <= bytes.len());
    bytes[index] as u32 + 256 * bytes[index + 1] as u32 + 65536 * bytes[index + 2] as u32
        + 16777216 * bytes[index + 3] as u32
}

/// Whether some bytes begin with the header of a compound file.
fn begins_with_header(bytes: &Vec<u8>) -> (has: bool)
    ensures
        has == has_header(bytes@),
{
    let signature: [u8; 8] = [0xd0, 0xcf, 0x11, 0xe0, 0xa1, 0xb1, 0x1a, 0xe1];
    assert(signature@ =~= compound_signature());
    if bytes.len() < 512 {
        return false;
    }
    let mut index: usize = 0;
    while index < 8
        invariant
            index <= 8,
            bytes@.len() >= 512,
            signature@ == compound_signature(),
            forall|i: int| 0 <= i < index ==> bytes@[i] == signature@[i],
        decreases 8 - index,
    {
        if bytes[index] != signature[index] {
            assert(bytes@.take(8)[index as int] != compound_signature()[index as int]);
            return false;
        }
        index += 1;
    }
    assert(bytes@.take(8) =~= compound_signature());
    let size: u32 = read_short(bytes, 30);
    (size == 9 || (size == 12 && bytes.len() >= 4096)) && read_short(bytes, 32) == 6
}

/// The bytes of a compound file and what its header says of their sectors.
struct Sectors<'a> {
    bytes: &'a Vec<u8>,
    small: bool,
    /// How many whole sectors the file has, with its header.
    count: u32,
}

impl<'a> Sectors<'a> {
    /// Whether this is what the header says.
    spec fn wf(&self) -> bool {
        &&& has_header(self.bytes@)
        &&& self.small == is_small(self.bytes@)
        &&& self.count == sector_count(self.bytes@)
        &&& self.count < u32::MAX
    }

    /// How many bytes a number of sectors has.
    fn length(&self, sectors: u64) -> (length: u64)
        requires
            self.wf(),
            sectors <= u32::MAX,
        ensures
            length == length_of(self.bytes@, sectors as int),
    {
        if self.small {
            512 * sectors
        } else {
            4096 * sectors
        }
    }

    /// Where a sector is.
    fn place(&self, id: u32) -> (place: Place)
        requires
            self.wf(),
        ensures
            place == place_of(self.bytes@, id),
            place == Place::Whole ==> length_of(self.bytes@, id + 2) <= self.bytes@.len(),
    {
        if id > self.count {
            Place::Beyond
        } else if id as u64 + 2 <= self.count as u64 {
            Place::Whole
        } else {
            Place::Partial
        }
    }

    /// Where a sector that is there begins.
    fn start(&self, id: u32) -> (start: usize)
        requires
            self.wf(),
            place_of(self.bytes@, id) == Place::Whole,
        ensures
            start == length_of(self.bytes@, id + 1),
            length_of(self.bytes@, id + 2) <= self.bytes@.len(),
    {
        assert(length_of(self.bytes@, id + 1) <= self.bytes.len());
        self.length(id as u64 + 1) as usize
    }

    /// Appends the numbers in a sector that is there.
    fn push_entries(&self, id: u32, numbers: &mut Vec<u32>)
        requires
            self.wf(),
            place_of(self.bytes@, id) == Place::Whole,
        ensures
            final(numbers)@ == old(numbers)@ + entries_of(self.bytes@, id),
    {
        let start: usize = self.start(id);
        let count: usize = if self.small {
            128
        } else {
            1024
        };
        let ghost before = numbers@;
        let ghost entries = entries_of(self.bytes@, id);
        let mut index: usize = 0;
        assert(numbers@ == before + entries.take(0));
        while index < count
            invariant
                self.wf(),
                index <= count,
                count == entry_count(self.bytes@),
                start == length_of(self.bytes@, id + 1),
                length_of(self.bytes@, id + 2) <= self.bytes@.len(),
                entries == entries_of(self.bytes@, id),
                numbers@ == before + entries.take(index as int),
            decreases count - index,
        {
            numbers.push(read_long(self.bytes, start + 4 * index));
            assert(entries.take(index + 1) == entries.take(index as int).push(
                entries[index as int],
            ));
            index += 1;
        }
        assert(entries.take(index as int) == entries);
    }

    /// The sectors of the table.
    fn listed(&self) -> (listed: Followable)
        requires
            self.wf(),
        ensures
            listed@ == listed_sectors(
                self.bytes@,
                header_sectors(self.bytes@),
                long_at(self.bytes@, 68),
                (sector_count(self.bytes@) + 1) as nat,
            ),
    {
        let mut ids: Vec<u32> = Vec::new();
        let mut index: usize = 0;
        while index < 109
            invariant
                self.wf(),
                index <= 109,
                ids@ == header_sectors(self.bytes@).take(index as int),
            decreases 109 - index,
        {
            ids.push(read_long(self.bytes, 76 + 4 * index));
            index += 1;
            assert(ids@ == header_sectors(self.bytes@).take(index as int));
        }
        assert(ids@ == header_sectors(self.bytes@));
        let mut next: u32 = read_long(self.bytes, 68);
        let mut left: u32 = self.count + 1;
        while next < RESERVED
            invariant
                self.wf(),
                listed_sectors(
                    self.bytes@,
                    header_sectors(self.bytes@),
                    long_at(self.bytes@, 68),
                    (sector_count(self.bytes@) + 1) as nat,
                ) == listed_sectors(self.bytes@, ids@, next, left as nat),
            decreases left,
        {
            if left == 0 {
                return Followable::Failed;
            }
            match self.place(next) {
                Place::Beyond => {
                    return Followable::Failed;
                },
                Place::Partial => {
                    return Followable::Astray;
                },
                Place::Whole => {},
            }
            let ghost before = ids@;
            let ghost entries = entries_of(self.bytes@, next);
            self.push_entries(next, &mut ids);
            assert(ids@.last() == entries.last());
            assert(ids@.drop_last() == before + entries.drop_last());
            next = match ids.pop() {
                Some(last) => last,
                None => {
                    return Followable::Failed;
                },
            };
            left -= 1;
        }
        Followable::Read(ids)
    }

    /// The table, given its sectors.
    fn table(&self, ids: &Vec<u32>) -> (table: Followable)
        requires
            self.wf(),
        ensures
            table@ == table_of(self.bytes@, ids@),
    {
        let mut table: Vec<u32> = Vec::new();
        let mut index: usize = 0;
        assert(ids@.take(0) == Seq::<u32>::empty());
        while index < ids.len()
            invariant
                self.wf(),
                index <= ids@.len(),
                table_of(self.bytes@, ids@.take(index as int)) == Followed::Read(table@),
            decreases ids@.len() - index,
        {
            let ghost earlier = ids@.take(index as int);
            let ghost later = ids@.take(index + 1);
            assert(later.drop_last() == earlier);
            let id: u32 = ids[index];
            assert(later.last() == id);
            if id < NO_TABLE {
                let place = self.place(id);
                if place == Place::Beyond {
                    proof {
                        self.lemma_table_stops(ids@, index + 1);
                    }
                    return Followable::Failed;
                }
                if place == Place::Partial {
                    proof {
                        self.lemma_table_stops(ids@, index + 1);
                    }
                    return Followable::Astray;
                }
                self.push_entries(id, &mut table);
            }
            index += 1;
        }
        assert(ids@.take(index as int) == ids@);
        Followable::Read(table)
    }

    /// Where the first sectors cannot be read, not all can.
    proof fn lemma_table_stops(&self, ids: Seq<u32>, length: int)
        requires
            0 <= length <= ids.len(),
            !(table_of(self.bytes@, ids.take(length)) is Read),
        ensures
            table_of(self.bytes@, ids) == table_of(self.bytes@, ids.take(length)),
        decreases ids.len(),
    {
        if length < ids.len() {
            assert(ids.drop_last().take(length) == ids.take(length));
            self.lemma_table_stops(ids.drop_last(), length);
        } else {
            assert(ids.take(length) == ids);
        }
    }

    /// The sectors that follow one another from a first one until a length is reached.
    fn chain(&self, table: &Vec<u32>, first: u32, length: u64) -> (followed: Followable)
        requires
            self.wf(),
        ensures
            followed@ == chain(self.bytes@, table@, first, length as nat),
    {
        let mut ids: Vec<u32> = Vec::new();
        let mut id: u32 = first;
        let mut left: u32 = self.count;
        let mut read: u32 = 0;
        proof {
            if let Followed::Read(all) = chain(self.bytes@, table@, first, length as nat) {
                assert(ids@ + all == all);
            }
        }
        while id != END_OF_CHAIN
            invariant
                self.wf(),
                read + left == self.count,
                chain(self.bytes@, table@, first, length as nat) == match chain_from(
                    self.bytes@,
                    table@,
                    id,
                    length as nat,
                    read as nat,
                    left as nat,
                ) {
                    Followed::Read(more) => Followed::Read(ids@ + more),
                    other => other,
                },
            decreases left,
        {
            if left == 0 {
                return Followable::Astray;
            }
            match self.place(id) {
                Place::Beyond => {
                    return Followable::Failed;
                },
                Place::Partial => {
                    return Followable::Astray;
                },
                Place::Whole => {},
            }
            let ghost before = ids@;
            ids.push(id);
            assert(before + seq![id] == ids@);
            if self.length(read as u64 + 1) >= length {
                return Followable::Read(ids);
            }
            if id as u64 >= table.len() as u64 {
                return Followable::Astray;
            }
            let next: u32 = table[id as usize];
            proof {
                if let Followed::Read(rest) = chain_from(
                    self.bytes@,
                    table@,
                    next,
                    length as nat,
                    (read + 1) as nat,
                    (left - 1) as nat,
                ) {
                    assert(before + (seq![id] + rest) == ids@ + rest);
                }
            }
            id = next;
            read += 1;
            left -= 1;
        }
        assert(ids@ + Seq::<u32>::empty() == ids@);
        Followable::Read(ids)
    }

    /// The length of the stream that an entry of the directory describes.
    fn stream_length(&self, entry: usize) -> (length: u64)
        requires
            self.wf(),
            entry + 128 <= self.bytes@.len(),
        ensures
            length == stream_length(self.bytes@, entry as int),
    {
        assert(entry + 128 <= self.bytes.len());
        let low: u64 = read_long(self.bytes, entry + 120) as u64;
        if self.small {
            low
        } else {
            low + 0x1_0000_0000 * read_long(self.bytes, entry + 124) as u64
        }
    }

    /// Whether the lengths of the streams in a sector of the directory fit the machine's
    /// word.
    fn sector_fits(&self, id: u32) -> (fits: bool)
        requires
            self.wf(),
            place_of(self.bytes@, id) == Place::Whole,
        ensures
            fits == forall|k: int|
                0 <= k < entry_count(self.bytes@) / 32 ==> #[trigger] stream_length(
                    self.bytes@,
                    length_of(self.bytes@, id + 1) + 128 * k,
                ) <= usize::MAX,
    {
        let start: usize = self.start(id);
        let count: usize = if self.small {
            4
        } else {
            32
        };
        let mut index: usize = 0;
        while index < count
            invariant
                self.wf(),
                index <= count,
                count == entry_count(self.bytes@) / 32,
                start == length_of(self.bytes@, id + 1),
                length_of(self.bytes@, id + 2) <= self.bytes@.len(),
                forall|k: int|
                    0 <= k < index ==> #[trigger] stream_length(
                        self.bytes@,
                        length_of(self.bytes@, id + 1) + 128 * k,
                    ) <= usize::MAX,
            decreases count - index,
        {
            if self.stream_length(start + 128 * index) as u128 > usize::MAX as u128 {
                assert(stream_length(
                    self.bytes@,
                    length_of(self.bytes@, id + 1) + 128 * index,
                ) > usize::MAX);
                return false;
            }
            index += 1;
        }
        true
    }

    /// All sectors that follow one another are there.
    proof fn lemma_chain_is_whole(
        &self,
        table: Seq<u32>,
        id: u32,
        length: nat,
        read: nat,
        left: nat,
    )
        ensures
            chain_from(self.bytes@, table, id, length, read, left) matches Followed::Read(ids)
                ==> forall|i: int|
                0 <= i < ids.len() ==> place_of(self.bytes@, #[trigger] ids[i]) == Place::Whole,
        decreases left,
    {
        if id != END_OF_CHAIN && left > 0 && place_of(self.bytes@, id) == Place::Whole && id
            < table.len() {
            self.lemma_chain_is_whole(table, table[id as int], length, read + 1, (left - 1) as nat);
        }
    }

    /// Whether the lengths of all streams in the sectors of a directory fit.
    fn fits_lengths(&self, directory: &Vec<u32>) -> (fits: bool)
        requires
            self.wf(),
            forall|i: int|
                0 <= i < directory@.len() ==> place_of(self.bytes@, #[trigger] directory@[i])
                    == Place::Whole,
        ensures
            fits == lengths_fit(self.bytes@, directory@),
    {
        let mut index: usize = 0;
        while index < directory.len()
            invariant
                self.wf(),
                index <= directory@.len(),
                forall|i: int|
                    0 <= i < directory@.len() ==> place_of(self.bytes@, #[trigger] directory@[i])
                        == Place::Whole,
                forall|i: int, k: int|
                    0 <= i < index && 0 <= k < entry_count(self.bytes@) / 32
                        ==> #[trigger] stream_length(
                        self.bytes@,
                        length_of(self.bytes@, #[trigger] directory@[i] + 1) + 128 * k,
                    ) <= usize::MAX,
            decreases directory@.len() - index,
        {
            if !self.sector_fits(directory[index]) {
                return false;
            }
            index += 1;
        }
        true
    }

    /// Whether the short streams can be followed.
    fn follows_short_streams(&self, table: &Vec<u32>, first: u32) -> (follows: bool)
        requires
            self.wf(),
            place_of(self.bytes@, first) == Place::Whole,
        ensures
            follows == short_streams_followed(self.bytes@, table@, first),
    {
        let root: usize = self.start(first);
        let start: u32 = read_long(self.bytes, root + 116);
        if read_short(self.bytes, 26) != 3 && start == END_OF_CHAIN {
            return true;
        }
        let parts: u32 = read_long(self.bytes, 64);
        if parts == 0 {
            return true;
        }
        match self.chain(table, start, self.stream_length(root)) {
            Followable::Astray => false,
            Followable::Failed => true,
            Followable::Read(_) => {
                let length: u64 = self.length(parts as u64);
                if length as u128 > usize::MAX as u128 {
                    return false;
                }
                match self.chain(table, read_long(self.bytes, 60), length) {
                    Followable::Astray => false,
                    _ => true,
                }
            },
        }
    }

    /// Whether the directory can be followed.
    fn follows_directory(&self, table: &Vec<u32>) -> (follows: bool)
        requires
            self.wf(),
        ensures
            follows == directory_followed(self.bytes@, table@),
    {
        let first: u32 = read_long(self.bytes, 48);
        match self.chain(table, first, usize::MAX as u64) {
            Followable::Astray => false,
            Followable::Failed => true,
            Followable::Read(directory) => {
                proof {
                    self.lemma_chain_is_whole(
                        table@,
                        first,
                        usize::MAX as nat,
                        0,
                        sector_count(self.bytes@) as nat,
                    );
                }
                self.fits_lengths(&directory) && (directory.len() == 0
                    || self.follows_short_streams(table, directory[0]))
            },
        }
    }
}

/// Whether some bytes are no compound file, or one whose sectors can be followed.
pub fn follows_sectors(bytes: &Vec<u8>) -> (follows: bool)
    ensures
        follows == can_be_followed(bytes@),
{
    if !begins_with_header(bytes) {
        return true;
    }
    let small: bool = read_short(bytes, 30) == 9;
    let count: usize = if small {
        bytes.len() / 512
    } else {
        bytes.len() / 4096
    };
    if count as u64 >= u32::MAX as u64 {
        return false;
    }
    let sectors = Sectors { bytes, small, count: count as u32 };
    match sectors.listed() {
        Followable::Astray => false,
        Followable::Failed => true,
        Followable::Read(ids) => match sectors.table(&ids) {
            Followable::Astray => false,
            Followable::Failed => true,
            Followable::Read(table) => sectors.follows_directory(&table),
        },
    }
}

} // verus!
