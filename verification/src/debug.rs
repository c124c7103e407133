use vstd::prelude::*;
use crate::block::{BlockType, EMPTY, UNKNOWN};
use crate::chunk::{Chunk, CHUNK_WIDTH, CHUNK_WIDTH_E3};
use crate::chunk_pos::ChunkPos;
use crate::text::push_char;

verus! {

/// Is this block type worth showing: neither empty nor unknown?
pub open spec fn interesting(bt: BlockType) -> bool {
    bt != crate::block::spec_empty() && bt != crate::block::spec_unknown()
}

/// Does the glyph table name this block type?
pub open spec fn has_bt(table: Seq<(BlockType, char)>, bt: BlockType) -> bool
    decreases table.len(),
{
    if table.len() == 0 {
        false
    } else if table[0].0 == bt {
        true
    } else {
        has_bt(table.drop_first(), bt)
    }
}

/// The glyph of a block type, by first match.
pub open spec fn char_of(table: Seq<(BlockType, char)>, bt: BlockType) -> char
    decreases table.len(),
{
    if table.len() == 0 {
        ' '
    } else if table[0].0 == bt {
        table[0].1
    } else {
        char_of(table.drop_first(), bt)
    }
}

/// Does the glyph table use this glyph?
pub open spec fn has_char(table: Seq<(BlockType, char)>, ch: char) -> bool
    decreases table.len(),
{
    if table.len() == 0 {
        false
    } else if table[0].1 == ch {
        true
    } else {
        has_char(table.drop_first(), ch)
    }
}

/// The block type of a glyph, by first match.
pub open spec fn bt_of(table: Seq<(BlockType, char)>, ch: char) -> BlockType
    decreases table.len(),
{
    if table.len() == 0 {
        crate::block::spec_unknown()
    } else if table[0].1 == ch {
        table[0].0
    } else {
        bt_of(table.drop_first(), ch)
    }
}

/// The componentwise maxima of the coordinates of the interesting cells
/// among the first `n` positions, each starting at zero.
pub open spec fn spec_bounds(chunk: Seq<BlockType>, n: nat) -> (int, int, int)
    decreases n,
{
    if n == 0 {
        (0, 0, 0)
    } else {
        let prev = spec_bounds(chunk, (n - 1) as nat);
        let p = ChunkPos::spec_from_n(n - 1);
        if interesting(chunk[n - 1]) {
            (
                if p.spec_x() > prev.0 {
                    p.spec_x()
                } else {
                    prev.0
                },
                if p.spec_y() > prev.1 {
                    p.spec_y()
                } else {
                    prev.1
                },
                if p.spec_z() > prev.2 {
                    p.spec_z()
                } else {
                    prev.2
                },
            )
        } else {
            prev
        }
    }
}

/// One dumped row: the glyphs of the z = 0 cells of row `y` up to column
/// `bx`, then a newline.
pub open spec fn dump_row(
    table: Seq<(BlockType, char)>,
    chunk: Seq<BlockType>,
    bx: int,
    y: int,
) -> Seq<char> {
    Seq::new((bx + 1) as nat, |x: int| char_of(table, chunk[ChunkPos::spec_pack(x, y, 0)])) + seq![
        '\n',
    ]
}

/// The first `yn` dumped rows, concatenated.
pub open spec fn dump_rows(
    table: Seq<(BlockType, char)>,
    chunk: Seq<BlockType>,
    bx: int,
    yn: nat,
) -> Seq<char>
    decreases yn,
{
    if yn == 0 {
        seq![]
    } else {
        dump_rows(table, chunk, bx, (yn - 1) as nat) + dump_row(table, chunk, bx, yn - 1)
    }
}

/// Is this character whitespace that loading strips?
pub open spec fn is_space(ch: char) -> bool {
    ch == ' ' || ch == '\n' || ch == '\t' || ch == '\r'
}

/// The sequence without its leading whitespace.
pub open spec fn trim_front(cs: Seq<char>) -> Seq<char>
    decreases cs.len(),
{
    if cs.len() > 0 && is_space(cs[0]) {
        trim_front(cs.drop_first())
    } else {
        cs
    }
}

/// The sequence without its trailing whitespace.
pub open spec fn trim_back(cs: Seq<char>) -> Seq<char>
    decreases cs.len(),
{
    if cs.len() > 0 && is_space(cs.last()) {
        trim_back(cs.drop_last())
    } else {
        cs
    }
}

/// The sequence without leading and trailing whitespace.
pub open spec fn trim_spec(cs: Seq<char>) -> Seq<char> {
    trim_back(trim_front(cs))
}

/// Can this text be loaded with the cursor at `(x, y)`: every glyph known
/// to the table, and no row or column ever leaving the chunk?
pub open spec fn load_ok(
    table: Seq<(BlockType, char)>,
    cs: Seq<char>,
    x: int,
    y: int,
) -> bool
    decreases cs.len(),
{
    if cs.len() == 0 {
        true
    } else if cs[0] == ' ' {
        load_ok(table, cs.drop_first(), x, y)
    } else if cs[0] == '\n' {
        y + 1 < (CHUNK_WIDTH as int) && load_ok(table, cs.drop_first(), 0, y + 1)
    } else {
        &&& 0 <= x < (CHUNK_WIDTH as int)
        &&& 0 <= y < (CHUNK_WIDTH as int)
        &&& has_char(table, cs[0])
        &&& load_ok(table, cs.drop_first(), x + 1, y)
    }
}

/// The chunk after the text is loaded with the cursor at `(x, y)`: spaces
/// are skipped, a newline moves the cursor to the start of the next row,
/// and each glyph writes its block type at `(x, y, 0)` and advances.
pub open spec fn spec_load(
    table: Seq<(BlockType, char)>,
    chunk: Seq<BlockType>,
    cs: Seq<char>,
    x: int,
    y: int,
) -> Seq<BlockType>
    decreases cs.len(),
{
    if cs.len() == 0 {
        chunk
    } else if cs[0] == ' ' {
        spec_load(table, chunk, cs.drop_first(), x, y)
    } else if cs[0] == '\n' {
        spec_load(table, chunk, cs.drop_first(), 0, y + 1)
    } else {
        spec_load(
            table,
            chunk.update(ChunkPos::spec_pack(x, y, 0), bt_of(table, cs[0])),
            cs.drop_first(),
            x + 1,
            y,
        )
    }
}

/// Loads chunks from, and dumps them to, a compact textual picture of the
/// z = 0 plane, one glyph per cell.
pub struct Debugger {
    block_type_chars: Vec<(BlockType, char)>,
}

impl Debugger {
    /// The glyph table.
    pub closed spec fn table(&self) -> Seq<(BlockType, char)> {
        self.block_type_chars@
    }

    #[verifier::type_invariant]
    pub open spec fn inv(&self) -> bool {
        &&& forall|i: int, j: int|
            0 <= i < j < self.table().len() ==> self.table()[i].0 != self.table()[j].0
        &&& forall|i: int, j: int|
            0 <= i < j < self.table().len() ==> self.table()[i].1 != self.table()[j].1
    }

    /// Build a debugger from an unambiguous glyph table: no block type and
    /// no glyph appears twice.
    pub fn new(block_type_chars: Vec<(BlockType, char)>) -> (r: Debugger)
        requires
            forall|i: int, j: int|
                0 <= i < j < block_type_chars@.len() ==> block_type_chars@[i].0
                    != block_type_chars@[j].0,
            forall|i: int, j: int|
                0 <= i < j < block_type_chars@.len() ==> block_type_chars@[i].1
                    != block_type_chars@[j].1,
        ensures
            r.table() == block_type_chars@,
    {
        Debugger { block_type_chars }
    }

    /// The glyph of a block type the table names.
    fn char_for(&self, bt: BlockType) -> (ch: char)
        requires
            has_bt(self.table(), bt),
        ensures
            ch == char_of(self.table(), bt),
    {
        let mut i: usize = 0;
        while i < self.block_type_chars.len()
            invariant
                0 <= i <= self.table().len(),
                has_bt(self.table(), bt),
                forall|j: int| 0 <= j < i ==> (#[trigger] self.table()[j]).0 != bt,
            decreases self.table().len() - i,
        {
            let entry = self.block_type_chars[i];
            if entry.0.0 == bt.0 {
                proof {
                    lemma_char_of_first_hit(self.table(), bt, i as int);
                }
                return entry.1;
            }
            i = i + 1;
        }
        proof {
            lemma_has_bt_hit(self.table(), bt);
        }
        ' '
    }

    /// The block type of a glyph the table uses.
    fn bt_for(&self, ch: char) -> (bt: BlockType)
        requires
            has_char(self.table(), ch),
        ensures
            bt == bt_of(self.table(), ch),
    {
        let mut i: usize = 0;
        while i < self.block_type_chars.len()
            invariant
                0 <= i <= self.table().len(),
                has_char(self.table(), ch),
                forall|j: int| 0 <= j < i ==> (#[trigger] self.table()[j]).1 != ch,
            decreases self.table().len() - i,
        {
            let entry = self.block_type_chars[i];
            if entry.1 == ch {
                proof {
                    lemma_bt_of_first_hit(self.table(), ch, i as int);
                }
                return entry.0;
            }
            i = i + 1;
        }
        proof {
            lemma_has_char_hit(self.table(), ch);
        }
        UNKNOWN()
    }

    /// The componentwise maxima of the coordinates of the interesting
    /// cells, each zero when no cell is interesting in that axis.
    pub fn bounds(&self, c: &Chunk) -> (r: ChunkPos)
        ensures
            (r.spec_x(), r.spec_y(), r.spec_z()) == spec_bounds(c@, CHUNK_WIDTH_E3 as nat),
    {
        let mut bound_x: u8 = 0;
        let mut bound_y: u8 = 0;
        let mut bound_z: u8 = 0;
        let mut n: usize = 0;
        while n < CHUNK_WIDTH_E3
            invariant
                0 <= n <= CHUNK_WIDTH_E3,
                bound_x < CHUNK_WIDTH,
                bound_y < CHUNK_WIDTH,
                bound_z < CHUNK_WIDTH,
                (bound_x as int, bound_y as int, bound_z as int) == spec_bounds(c@, n as nat),
            decreases CHUNK_WIDTH_E3 - n,
        {
            let p = ChunkPos::new_from_raw_n(n as u16);
            proof {
                ChunkPos::lemma_from_n(n as int);
                ChunkPos::lemma_eq_n(p, ChunkPos::spec_from_n(n as int));
            }
            let bt = c.get_block(p).block_type;
            if bt.0 != EMPTY().0 && bt.0 != UNKNOWN().0 {
                let px = p.x();
                let py = p.y();
                let pz = p.z();
                if px > bound_x {
                    bound_x = px;
                }
                if py > bound_y {
                    bound_y = py;
                }
                if pz > bound_z {
                    bound_z = pz;
                }
            }
            n = n + 1;
        }
        ChunkPos::new(bound_x, bound_y, bound_z)
    }

    /// Draw the z = 0 plane as rows of glyphs, one row per y up to the
    /// bounding box of the interesting cells, each row ending in a
    /// newline. Every interesting cell must lie on the z = 0 plane, and
    /// the table must name every block type inside the box.
    pub fn dump(&self, c: &Chunk) -> (s: String)
        requires
            spec_bounds(c@, CHUNK_WIDTH_E3 as nat).2 == 0,
            forall|x: int, y: int|
                0 <= x <= spec_bounds(c@, CHUNK_WIDTH_E3 as nat).0 && 0 <= y <= spec_bounds(
                    c@,
                    CHUNK_WIDTH_E3 as nat,
                ).1 ==> has_bt(self.table(), c@[ChunkPos::spec_pack(x, y, 0)]),
        ensures
            s@ == dump_rows(
                self.table(),
                c@,
                spec_bounds(c@, CHUNK_WIDTH_E3 as nat).0,
                (spec_bounds(c@, CHUNK_WIDTH_E3 as nat).1 + 1) as nat,
            ),
    {
        let ghost bspec = spec_bounds(c@, CHUNK_WIDTH_E3 as nat);
        let bounds = self.bounds(c);
        let bound_x = bounds.x();
        let bound_y = bounds.y();
        let mut s = String::new();
        let mut y: u8 = 0;
        while y <= bound_y
            invariant
                0 <= y <= bound_y + 1,
                bound_x as int == bspec.0,
                bound_y as int == bspec.1,
                bound_y < CHUNK_WIDTH,
                bound_x < CHUNK_WIDTH,
                bspec == spec_bounds(c@, CHUNK_WIDTH_E3 as nat),
                forall|x2: int, y2: int|
                    0 <= x2 <= bspec.0 && 0 <= y2 <= bspec.1 ==> has_bt(
                        self.table(),
                        c@[ChunkPos::spec_pack(x2, y2, 0)],
                    ),
                s@ == dump_rows(self.table(), c@, bspec.0, y as nat),
            decreases bound_y + 1 - y,
        {
            let mut x: u8 = 0;
            while x <= bound_x
                invariant
                    0 <= x <= bound_x + 1,
                    0 <= y <= bound_y,
                    bound_x as int == bspec.0,
                    bound_y as int == bspec.1,
                    bound_y < CHUNK_WIDTH,
                    bound_x < CHUNK_WIDTH,
                    bspec == spec_bounds(c@, CHUNK_WIDTH_E3 as nat),
                    forall|x2: int, y2: int|
                        0 <= x2 <= bspec.0 && 0 <= y2 <= bspec.1 ==> has_bt(
                            self.table(),
                            c@[ChunkPos::spec_pack(x2, y2, 0)],
                        ),
                    s@ == dump_rows(self.table(), c@, bspec.0, y as nat) + Seq::new(
                        x as nat,
                        |x2: int| char_of(self.table(), c@[ChunkPos::spec_pack(x2, y as int, 0)]),
                    ),
                decreases bound_x + 1 - x,
            {
                let pos = ChunkPos::new(x, y, 0);
                let block = c.get_block(pos);
                let chr = self.char_for(block.block_type);
                push_char(&mut s, chr);
                proof {
                    assert(s@ =~= dump_rows(self.table(), c@, bspec.0, y as nat) + Seq::new(
                        (x + 1) as nat,
                        |x2: int| char_of(self.table(), c@[ChunkPos::spec_pack(x2, y as int, 0)]),
                    ));
                }
                x = x + 1;
            }
            push_char(&mut s, '\n');
            proof {
                assert(s@ =~= dump_rows(self.table(), c@, bspec.0, (y + 1) as nat));
            }
            y = y + 1;
        }
        s
    }

    /// Fill cells of the chunk from a textual picture: ignoring leading
    /// and trailing whitespace, each glyph writes its block type and
    /// advances along x, a newline starts the next row, and plain spaces
    /// are skipped.
    pub fn load(&self, c: &mut Chunk, s: &str)
        requires
            load_ok(self.table(), trim_spec(s@), 0, 0),
        ensures
            final(c)@ == spec_load(self.table(), old(c)@, trim_spec(s@), 0, 0),
    {
        let total = s.unicode_len();
        let mut start: usize = 0;
        while start < total && is_space_char(s.get_char(start))
            invariant
                0 <= start <= total,
                total == s@.len(),
                forall|j: int| 0 <= j < start ==> is_space(s@[j]),
            decreases total - start,
        {
            start = start + 1;
        }
        let mut end: usize = total;
        while end > start && is_space_char(s.get_char(end - 1))
            invariant
                start <= end <= total,
                total == s@.len(),
                forall|j: int| 0 <= j < start ==> is_space(s@[j]),
                start < total ==> !is_space(s@[start as int]),
                forall|j: int| end <= j < total ==> is_space(s@[j]),
            decreases end,
        {
            end = end - 1;
        }
        proof {
            lemma_trim_is_subrange(s@, start as int, end as int);
        }
        let ghost trimmed = trim_spec(s@);
        let mut i: usize = start;
        let mut x: u8 = 0;
        let mut y: u8 = 0;
        while i < end
            invariant
                start <= i <= end <= total,
                total == s@.len(),
                trimmed == s@.subrange(start as int, end as int),
                0 <= x <= CHUNK_WIDTH,
                0 <= y < CHUNK_WIDTH,
                load_ok(self.table(), s@.subrange(i as int, end as int), x as int, y as int),
                spec_load(self.table(), old(c)@, trimmed, 0, 0) == spec_load(
                    self.table(),
                    c@,
                    s@.subrange(i as int, end as int),
                    x as int,
                    y as int,
                ),
            decreases end - i,
        {
            let ghost rest = s@.subrange(i as int, end as int);
            proof {
                assert(rest.drop_first() =~= s@.subrange(i as int + 1, end as int));
                assert(rest[0] == s@[i as int]);
            }
            let chr = s.get_char(i);
            if chr == ' ' {
            } else if chr == '\n' {
                x = 0;
                y = y + 1;
            } else {
                let bt = self.bt_for(chr);
                c.set_block_type(ChunkPos::new(x, y, 0), bt);
                proof {
                    ChunkPos::lemma_pack_split(x as int, y as int, 0);
                }
                x = x + 1;
            }
            i = i + 1;
        }
        proof {
            assert(s@.subrange(end as int, end as int) =~= Seq::<char>::empty());
        }
    }

    /// What the picture looks like after a round trip: load it into a
    /// fresh chunk and dump that chunk. The table must know the unknown
    /// block type, which fills every cell the picture leaves untouched.
    pub fn clean(&self, s: &str) -> (r: String)
        requires
            load_ok(self.table(), trim_spec(s@), 0, 0),
            has_bt(self.table(), crate::block::spec_unknown()),
        ensures
            ({
                let loaded = spec_load(
                    self.table(),
                    Seq::new(CHUNK_WIDTH_E3 as nat, |i: int| crate::block::spec_unknown()),
                    trim_spec(s@),
                    0,
                    0,
                );
                r@ == dump_rows(
                    self.table(),
                    loaded,
                    spec_bounds(loaded, CHUNK_WIDTH_E3 as nat).0,
                    (spec_bounds(loaded, CHUNK_WIDTH_E3 as nat).1 + 1) as nat,
                )
            }),
    {
        let mut c = Chunk::new();
        proof {
            assert(c@ =~= Seq::new(CHUNK_WIDTH_E3 as nat, |i: int| crate::block::spec_unknown()));
        }
        self.load(&mut c, s);
        proof {
            let blank = Seq::new(CHUNK_WIDTH_E3 as nat, |i: int| crate::block::spec_unknown());
            let loaded = spec_load(self.table(), blank, trim_spec(s@), 0, 0);
            lemma_load_stays_in_table(self.table(), blank, trim_spec(s@), 0, 0);
            lemma_loaded_bounds_flat(self.table(), trim_spec(s@));
            lemma_bounds_range(loaded, CHUNK_WIDTH_E3 as nat);
            let bs = spec_bounds(loaded, CHUNK_WIDTH_E3 as nat);
            assert forall|x: int, y: int| 0 <= x <= bs.0 && 0 <= y <= bs.1 implies has_bt(
                self.table(),
                loaded[ChunkPos::spec_pack(x, y, 0)],
            ) by {
                ChunkPos::lemma_pack_split(x, y, 0);
                let n = ChunkPos::spec_pack(x, y, 0);
                assert(loaded[n] == blank[n] || has_bt(self.table(), loaded[n]));
            }
        }
        self.dump(&c)
    }
}

fn is_space_char(ch: char) -> (r: bool)
    ensures
        r == is_space(ch),
{
    ch == ' ' || ch == '\n' || ch == '\t' || ch == '\r'
}

proof fn lemma_char_of_first_hit(table: Seq<(BlockType, char)>, bt: BlockType, i: int)
    requires
        0 <= i < table.len(),
        table[i].0 == bt,
        forall|j: int| 0 <= j < i ==> table[j].0 != bt,
    ensures
        has_bt(table, bt),
        char_of(table, bt) == table[i].1,
    decreases i,
{
    if i > 0 {
        lemma_char_of_first_hit(table.drop_first(), bt, i - 1);
    }
}

proof fn lemma_bt_of_first_hit(table: Seq<(BlockType, char)>, ch: char, i: int)
    requires
        0 <= i < table.len(),
        table[i].1 == ch,
        forall|j: int| 0 <= j < i ==> table[j].1 != ch,
    ensures
        has_char(table, ch),
        bt_of(table, ch) == table[i].0,
    decreases i,
{
    if i > 0 {
        lemma_bt_of_first_hit(table.drop_first(), ch, i - 1);
    }
}

/// A named block type has a witness entry.
proof fn lemma_has_bt_hit(table: Seq<(BlockType, char)>, bt: BlockType)
    requires
        has_bt(table, bt),
    ensures
        exists|i: int| 0 <= i < table.len() && (#[trigger] table[i]).0 == bt,
    decreases table.len(),
{
    if table.len() > 0 {
        if table[0].0 == bt {
            assert(table[0].0 == bt);
        } else {
            lemma_has_bt_hit(table.drop_first(), bt);
            let i = choose|i: int|
                0 <= i < table.drop_first().len() && (#[trigger] table.drop_first()[i]).0 == bt;
            assert(table[i + 1].0 == bt);
        }
    }
}

/// A used glyph has a witness entry.
proof fn lemma_has_char_hit(table: Seq<(BlockType, char)>, ch: char)
    requires
        has_char(table, ch),
    ensures
        exists|i: int| 0 <= i < table.len() && (#[trigger] table[i]).1 == ch,
    decreases table.len(),
{
    if table.len() > 0 {
        if table[0].1 == ch {
            assert(table[0].1 == ch);
        } else {
            lemma_has_char_hit(table.drop_first(), ch);
            let i = choose|i: int|
                0 <= i < table.drop_first().len() && (#[trigger] table.drop_first()[i]).1 == ch;
            assert(table[i + 1].1 == ch);
        }
    }
}

/// Trimming the front removes exactly the leading whitespace.
proof fn lemma_trim_front_range(cs: Seq<char>, start: int)
    requires
        0 <= start <= cs.len(),
        forall|j: int| 0 <= j < start ==> is_space(cs[j]),
        start < cs.len() ==> !is_space(cs[start]),
    ensures
        trim_front(cs) == cs.subrange(start, cs.len() as int),
    decreases start,
{
    if start > 0 {
        assert(is_space(cs[0]));
        assert forall|j: int| 0 <= j < start - 1 implies is_space(cs.drop_first()[j]) by {
            assert(cs.drop_first()[j] == cs[j + 1]);
        }
        lemma_trim_front_range(cs.drop_first(), start - 1);
        assert(cs.drop_first().subrange(start - 1, cs.drop_first().len() as int) =~= cs.subrange(
            start,
            cs.len() as int,
        ));
    } else {
        if cs.len() > 0 {
            assert(!is_space(cs[0]));
        }
        assert(cs.subrange(0, cs.len() as int) =~= cs);
    }
}

/// Trimming the back removes exactly the trailing whitespace.
proof fn lemma_trim_back_range(cs: Seq<char>, end: int)
    requires
        0 <= end <= cs.len(),
        forall|j: int| end <= j < cs.len() ==> is_space(cs[j]),
        end > 0 ==> !is_space(cs[end - 1]),
    ensures
        trim_back(cs) == cs.subrange(0, end),
    decreases cs.len() - end,
{
    if end < cs.len() {
        assert(is_space(cs.last()));
        assert forall|j: int| end <= j < cs.drop_last().len() implies is_space(
            cs.drop_last()[j],
        ) by {
            assert(cs.drop_last()[j] == cs[j]);
        }
        lemma_trim_back_range(cs.drop_last(), end);
        assert(cs.drop_last().subrange(0, end) =~= cs.subrange(0, end));
    } else {
        if cs.len() > 0 {
            assert(!is_space(cs.last()));
        }
        assert(cs.subrange(0, cs.len() as int) =~= cs);
    }
}

/// Trimming removes exactly the leading and trailing whitespace.
proof fn lemma_trim_is_subrange(cs: Seq<char>, start: int, end: int)
    requires
        0 <= start <= end <= cs.len(),
        forall|j: int| 0 <= j < start ==> is_space(cs[j]),
        start < end ==> !is_space(cs[start]),
        forall|j: int| end <= j < cs.len() ==> is_space(cs[j]),
        start < end ==> !is_space(cs[end - 1]),
    ensures
        trim_spec(cs) == cs.subrange(start, end),
{
    if start == end {
        assert forall|j: int| 0 <= j < cs.len() implies is_space(cs[j]) by {}
        lemma_trim_front_range(cs, cs.len() as int);
        assert(trim_front(cs) =~= Seq::<char>::empty());
        assert(trim_spec(cs) == trim_back(trim_front(cs)));
        assert(trim_back(Seq::<char>::empty()) =~= Seq::<char>::empty());
        assert(cs.subrange(start, end) =~= Seq::<char>::empty());
    } else {
        lemma_trim_front_range(cs, start);
        let ds = cs.subrange(start, cs.len() as int);
        assert forall|j: int| end - start <= j < ds.len() implies is_space(ds[j]) by {
            assert(ds[j] == cs[j + start]);
        }
        assert(ds[end - start - 1] == cs[end - 1]);
        lemma_trim_back_range(ds, end - start);
        assert(ds.subrange(0, end - start) =~= cs.subrange(start, end));
    }
}

/// Loading writes only block types the table names; every other cell is
/// left as it was.
proof fn lemma_load_stays_in_table(
    table: Seq<(BlockType, char)>,
    chunk: Seq<BlockType>,
    cs: Seq<char>,
    x: int,
    y: int,
)
    requires
        load_ok(table, cs, x, y),
        chunk.len() == CHUNK_WIDTH_E3,
    ensures
        forall|n: int|
            0 <= n < spec_load(table, chunk, cs, x, y).len() ==> spec_load(
                table,
                chunk,
                cs,
                x,
                y,
            )[n] == chunk[n] || has_bt(table, spec_load(table, chunk, cs, x, y)[n]),
        spec_load(table, chunk, cs, x, y).len() == chunk.len(),
    decreases cs.len(),
{
    if cs.len() > 0 {
        if cs[0] == ' ' {
            lemma_load_stays_in_table(table, chunk, cs.drop_first(), x, y);
        } else if cs[0] == '\n' {
            lemma_load_stays_in_table(table, chunk, cs.drop_first(), 0, y + 1);
        } else {
            let n0 = ChunkPos::spec_pack(x, y, 0);
            let written = chunk.update(n0, bt_of(table, cs[0]));
            ChunkPos::lemma_pack_split(x, y, 0);
            lemma_bt_of_in_table(table, cs[0]);
            lemma_load_stays_in_table(table, written, cs.drop_first(), x + 1, y);
            let out = spec_load(table, chunk, cs, x, y);
            assert forall|n: int| 0 <= n < out.len() implies out[n] == chunk[n] || has_bt(
                table,
                out[n],
            ) by {
                assert(out[n] == written[n] || has_bt(table, out[n]));
                if n != n0 {
                    assert(written[n] == chunk[n]);
                } else {
                    assert(written[n] == bt_of(table, cs[0]));
                }
            }
        }
    }
}

/// The block type of a used glyph is named by the table.
proof fn lemma_bt_of_in_table(table: Seq<(BlockType, char)>, ch: char)
    requires
        has_char(table, ch),
    ensures
        has_bt(table, bt_of(table, ch)),
    decreases table.len(),
{
    if table.len() > 0 && table[0].1 != ch {
        lemma_bt_of_in_table(table.drop_first(), ch);
        lemma_has_bt_lift(table, bt_of(table.drop_first(), ch));
    } else if table.len() > 0 {
        assert(has_bt(table, table[0].0));
    }
}

/// What the tail of a table names, the table names.
proof fn lemma_has_bt_lift(table: Seq<(BlockType, char)>, bt: BlockType)
    requires
        table.len() > 0,
        has_bt(table.drop_first(), bt),
    ensures
        has_bt(table, bt),
{
}

/// Everything a picture loads into a fresh chunk lies on the z = 0 plane,
/// so the bounding box of the loaded chunk is flat.
proof fn lemma_loaded_bounds_flat(table: Seq<(BlockType, char)>, cs: Seq<char>)
    requires
        load_ok(table, cs, 0, 0),
    ensures
        spec_bounds(
            spec_load(
                table,
                Seq::new(CHUNK_WIDTH_E3 as nat, |i: int| crate::block::spec_unknown()),
                cs,
                0,
                0,
            ),
            CHUNK_WIDTH_E3 as nat,
        ).2 == 0,
{
    let blank = Seq::new(CHUNK_WIDTH_E3 as nat, |i: int| crate::block::spec_unknown());
    let loaded = spec_load(table, blank, cs, 0, 0);
    lemma_load_writes_flat(table, blank, cs, 0, 0);
    assert forall|k: int|
        0 <= k < loaded.len() && ChunkPos::spec_from_n(k).spec_z() != 0 implies !interesting(
        loaded[k],
    ) by {
        assert(loaded[k] == blank[k]);
        assert(blank[k] == crate::block::spec_unknown());
    }
    lemma_flat_bounds(loaded, CHUNK_WIDTH_E3 as nat);
}

/// Loading with the cursor on the z = 0 plane never changes a cell off
/// that plane.
proof fn lemma_load_writes_flat(
    table: Seq<(BlockType, char)>,
    chunk: Seq<BlockType>,
    cs: Seq<char>,
    x: int,
    y: int,
)
    requires
        load_ok(table, cs, x, y),
        chunk.len() == CHUNK_WIDTH_E3,
        0 <= x,
        0 <= y,
    ensures
        forall|n: int|
            0 <= n < spec_load(table, chunk, cs, x, y).len() && ChunkPos::spec_from_n(n).spec_z()
                != 0 ==> spec_load(table, chunk, cs, x, y)[n] == chunk[n],
        spec_load(table, chunk, cs, x, y).len() == chunk.len(),
    decreases cs.len(),
{
    if cs.len() > 0 {
        if cs[0] == ' ' {
            lemma_load_writes_flat(table, chunk, cs.drop_first(), x, y);
        } else if cs[0] == '\n' {
            lemma_load_writes_flat(table, chunk, cs.drop_first(), 0, y + 1);
        } else {
            let n0 = ChunkPos::spec_pack(x, y, 0);
            let written = chunk.update(n0, bt_of(table, cs[0]));
            lemma_load_writes_flat(table, written, cs.drop_first(), x + 1, y);
            ChunkPos::lemma_pack_split(x, y, 0);
            let out = spec_load(table, chunk, cs, x, y);
            assert forall|n: int|
                0 <= n < out.len() && ChunkPos::spec_from_n(n).spec_z() != 0 implies out[n]
                == chunk[n] by {
                assert(out[n] == written[n]);
                if n == n0 {
                    ChunkPos::lemma_from_n(n);
                    let p = ChunkPos::spec_from_n(n);
                    p.lemma_split_pack();
                    ChunkPos::lemma_pack_split(p.spec_x(), p.spec_y(), p.spec_z());
                    assert(p.spec_z() == 0);
                }
                assert(written[n] == chunk[n]);
            }
        }
    }
}

/// The bounding box components always lie inside the chunk.
proof fn lemma_bounds_range(chunk: Seq<BlockType>, n: nat)
    ensures
        0 <= spec_bounds(chunk, n).0 < (CHUNK_WIDTH as int),
        0 <= spec_bounds(chunk, n).1 < (CHUNK_WIDTH as int),
        0 <= spec_bounds(chunk, n).2 < (CHUNK_WIDTH as int),
    decreases n,
{
    if n > 0 {
        lemma_bounds_range(chunk, (n - 1) as nat);
        ChunkPos::spec_from_n(n - 1).lemma_coords_range();
    }
}

/// A chunk whose interesting cells all lie on the z = 0 plane has a flat
/// bounding box.
proof fn lemma_flat_bounds(chunk: Seq<BlockType>, n: nat)
    requires
        n <= CHUNK_WIDTH_E3,
        forall|k: int|
            0 <= k < chunk.len() && ChunkPos::spec_from_n(k).spec_z() != 0 ==> !interesting(
                chunk[k],
            ),
        chunk.len() == CHUNK_WIDTH_E3,
    ensures
        spec_bounds(chunk, n).2 == 0,
    decreases n,
{
    if n > 0 {
        lemma_flat_bounds(chunk, (n - 1) as nat);
        if interesting(chunk[n - 1]) {
            assert(ChunkPos::spec_from_n(n - 1).spec_z() == 0);
        }
    }
}

} // verus!
