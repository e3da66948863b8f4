//! Byte images made of little-endian fields: the layout used by machine
//! snapshots. An image is a sequence of items; its shape (the kind and size
//! of each item) determines where every field sits, so an image decodes back
//! to exactly the items it was built from.

use vstd::prelude::*;
use vstd::bytes::{spec_u16_to_le_bytes, spec_u16_from_le_bytes, spec_u32_to_le_bytes, spec_u32_from_le_bytes, spec_u64_to_le_bytes, spec_u64_from_le_bytes};

verus! {

/// The kind and size of one field.
pub enum Kind {
    Byte,
    Word,
    Long,
    Quad,
    Bytes(nat),
    Longs(nat),
}

/// One field's value.
pub enum Item {
    Byte(u8),
    Word(u16),
    Long(u32),
    Quad(u64),
    Bytes(Seq<u8>),
    Longs(Seq<u32>),
}

pub open spec fn kind_of(i: Item) -> Kind {
    match i {
        Item::Byte(_) => Kind::Byte,
        Item::Word(_) => Kind::Word,
        Item::Long(_) => Kind::Long,
        Item::Quad(_) => Kind::Quad,
        Item::Bytes(s) => Kind::Bytes(s.len()),
        Item::Longs(s) => Kind::Longs(s.len()),
    }
}

pub open spec fn shape_of(items: Seq<Item>) -> Seq<Kind> {
    items.map_values(|i: Item| kind_of(i))
}

/// Encoded size of a field.
pub open spec fn kind_len(k: Kind) -> nat {
    match k {
        Kind::Byte => 1,
        Kind::Word => 2,
        Kind::Long => 4,
        Kind::Quad => 8,
        Kind::Bytes(n) => n,
        Kind::Longs(n) => 4 * n,
    }
}

/// Encoded size of a layout.
pub open spec fn shape_len(sh: Seq<Kind>) -> nat
    decreases sh.len(),
{
    if sh.len() == 0 {
        0
    } else {
        shape_len(sh.drop_last()) + kind_len(sh.last())
    }
}

/// 32-bit words, each little-endian, one after another.
pub open spec fn longs_bytes(s: Seq<u32>) -> Seq<u8>
    decreases s.len(),
{
    if s.len() == 0 {
        Seq::empty()
    } else {
        longs_bytes(s.drop_last()) + spec_u32_to_le_bytes(s.last())
    }
}

/// The first `n` little-endian 32-bit words of `b`.
pub open spec fn longs_from(b: Seq<u8>, n: nat) -> Seq<u32>
    decreases n,
{
    if n == 0 {
        Seq::empty()
    } else {
        longs_from(b, (n - 1) as nat).push(spec_u32_from_le_bytes(b.subrange(4 * (n - 1), (4 * n) as int)))
    }
}

pub open spec fn item_bytes(i: Item) -> Seq<u8> {
    match i {
        Item::Byte(v) => seq![v],
        Item::Word(v) => spec_u16_to_le_bytes(v),
        Item::Long(v) => spec_u32_to_le_bytes(v),
        Item::Quad(v) => spec_u64_to_le_bytes(v),
        Item::Bytes(s) => s,
        Item::Longs(s) => longs_bytes(s),
    }
}

/// The image of a sequence of fields.
pub open spec fn items_bytes(items: Seq<Item>) -> Seq<u8>
    decreases items.len(),
{
    if items.len() == 0 {
        Seq::empty()
    } else {
        items_bytes(items.drop_last()) + item_bytes(items.last())
    }
}

/// The field of kind `k` held in `b` (of length `kind_len(k)`).
pub open spec fn item_from(b: Seq<u8>, k: Kind) -> Item {
    match k {
        Kind::Byte => Item::Byte(b[0]),
        Kind::Word => Item::Word(spec_u16_from_le_bytes(b)),
        Kind::Long => Item::Long(spec_u32_from_le_bytes(b)),
        Kind::Quad => Item::Quad(spec_u64_from_le_bytes(b)),
        Kind::Bytes(n) => Item::Bytes(b),
        Kind::Longs(n) => Item::Longs(longs_from(b, n)),
    }
}

/// The fields of layout `sh` read from the start of `d`.
pub open spec fn items_from(d: Seq<u8>, sh: Seq<Kind>) -> Seq<Item>
    decreases sh.len(),
{
    if sh.len() == 0 {
        Seq::empty()
    } else {
        let pre = sh.drop_last();
        let off = shape_len(pre);
        items_from(d, pre).push(item_from(d.subrange(off as int, (off + kind_len(sh.last())) as int), sh.last()))
    }
}

pub proof fn lemma_longs_roundtrip(s: Seq<u32>, rest: Seq<u8>)
    ensures
        longs_bytes(s).len() == 4 * s.len(),
        longs_from(longs_bytes(s) + rest, s.len()) == s,
    decreases s.len(),
{
    vstd::bytes::lemma_auto_spec_u32_to_from_le_bytes();
    if s.len() > 0 {
        let pre = s.drop_last();
        let tail = spec_u32_to_le_bytes(s.last());
        lemma_longs_roundtrip(pre, tail + rest);
        assert(longs_bytes(s) + rest =~= longs_bytes(pre) + (tail + rest));
        let n = s.len();
        assert((longs_bytes(s) + rest).subrange(4 * (n - 1), (4 * n) as int) =~= tail);
        assert(longs_from(longs_bytes(s) + rest, (n - 1) as nat) == pre);
        assert(pre.push(s.last()) =~= s);
    }
}

pub proof fn lemma_item_roundtrip(i: Item, rest: Seq<u8>)
    ensures
        item_bytes(i).len() == kind_len(kind_of(i)),
        item_from((item_bytes(i) + rest).subrange(0, kind_len(kind_of(i)) as int), kind_of(i)) == i,
{
    vstd::bytes::lemma_auto_spec_u16_to_from_le_bytes();
    vstd::bytes::lemma_auto_spec_u32_to_from_le_bytes();
    vstd::bytes::lemma_auto_spec_u64_to_from_le_bytes();
    let n = kind_len(kind_of(i));
    match i {
        Item::Longs(s) => {
            lemma_longs_roundtrip(s, Seq::empty());
            assert((item_bytes(i) + rest).subrange(0, n as int) =~= longs_bytes(s));
            assert(longs_bytes(s) + Seq::<u8>::empty() =~= longs_bytes(s));
        },
        _ => {
            assert((item_bytes(i) + rest).subrange(0, n as int) =~= item_bytes(i));
        },
    }
}

/// An image decodes back to the fields it was built from, whatever follows it.
pub proof fn lemma_items_roundtrip(items: Seq<Item>, rest: Seq<u8>)
    ensures
        items_bytes(items).len() == shape_len(shape_of(items)),
        items_from(items_bytes(items) + rest, shape_of(items)) == items,
    decreases items.len(),
{
    if items.len() > 0 {
        let pre = items.drop_last();
        let last = items.last();
        let tail = item_bytes(last);
        assert(shape_of(items).drop_last() =~= shape_of(pre));
        assert(shape_of(items).last() == kind_of(last));
        lemma_items_roundtrip(pre, tail + rest);
        assert(items_bytes(items) + rest =~= items_bytes(pre) + (tail + rest));
        lemma_item_roundtrip(last, rest);
        let off = shape_len(shape_of(pre));
        let n = kind_len(kind_of(last));
        assert((items_bytes(items) + rest).subrange(off as int, (off + n) as int) =~= (tail + rest).subrange(0, n as int));
        assert(pre.push(last) =~= items);
    }
}

/// Appending a field grows the encoded size by that field's size.
pub proof fn lemma_shape_len_push()
    ensures
        forall|sh: Seq<Kind>, k: Kind| #[trigger] shape_len(sh.push(k)) == shape_len(sh) + kind_len(k),
{
    assert forall|sh: Seq<Kind>, k: Kind| #[trigger] shape_len(sh.push(k)) == shape_len(sh) + kind_len(k) by {
        assert(sh.push(k).drop_last() =~= sh);
    }
}

/// The encoded size of two layouts one after the other.
pub proof fn lemma_shape_len_concat(a: Seq<Kind>, b: Seq<Kind>)
    ensures
        shape_len(a + b) == shape_len(a) + shape_len(b),
    decreases b.len(),
{
    if b.len() == 0 {
        assert(a + b =~= a);
    } else {
        lemma_shape_len_concat(a, b.drop_last());
        assert((a + b).drop_last() =~= a + b.drop_last());
    }
}

/// The layout of two field sequences one after the other.
pub proof fn lemma_shape_of_concat(a: Seq<Item>, b: Seq<Item>)
    ensures
        shape_of(a + b) == shape_of(a) + shape_of(b),
{
    assert(shape_of(a + b) =~= shape_of(a) + shape_of(b));
}

/// Decoding yields one field per layout entry.
pub proof fn lemma_items_from_len(d: Seq<u8>, sh: Seq<Kind>)
    ensures
        items_from(d, sh).len() == sh.len(),
    decreases sh.len(),
{
    if sh.len() > 0 {
        lemma_items_from_len(d, sh.drop_last());
    }
}

/// The fields of a layout's first part decode the same whatever follows.
pub proof fn lemma_items_from_concat_prefix(d: Seq<u8>, a: Seq<Kind>, b: Seq<Kind>)
    ensures
        items_from(d, a + b).subrange(0, a.len() as int) == items_from(d, a),
    decreases b.len(),
{
    lemma_items_from_len(d, a);
    if b.len() == 0 {
        assert(a + b =~= a);
        assert(items_from(d, a).subrange(0, a.len() as int) =~= items_from(d, a));
    } else {
        let pre = b.drop_last();
        lemma_items_from_concat_prefix(d, a, pre);
        assert((a + b).drop_last() =~= a + pre);
        lemma_items_from_len(d, a + pre);
        assert(items_from(d, a + b).subrange(0, a.len() as int) =~= items_from(d, a + pre).subrange(0, a.len() as int));
    }
}

/// An owned copy of `s`.
pub fn copy_bytes(s: &[u8]) -> (v: Vec<u8>)
    ensures
        v@ == s@,
{
    let mut v: Vec<u8> = Vec::new();
    let mut i: usize = 0;
    while i < s.len()
        invariant
            i <= s@.len(),
            v@ == s@.subrange(0, i as int),
        decreases s@.len() - i,
    {
        v.push(s[i]);
        i = i + 1;
        assert(v@ =~= s@.subrange(0, i as int));
    }
    assert(s@.subrange(0, i as int) =~= s@);
    v
}

/// Builds an image field by field.
pub struct Writer {
    pub buf: Vec<u8>,
    pub items: Ghost<Seq<Item>>,
}

impl Writer {
    pub open spec fn wf(self) -> bool {
        self.buf@ == items_bytes(self.items@)
    }

    pub fn new() -> (w: Writer)
        ensures
            w.wf(),
            w.items@ == Seq::<Item>::empty(),
    {
        Writer { buf: Vec::new(), items: Ghost(Seq::empty()) }
    }

    proof fn lemma_append(old_items: Seq<Item>, i: Item)
        ensures
            items_bytes(old_items.push(i)) == items_bytes(old_items) + item_bytes(i),
    {
        assert(old_items.push(i).drop_last() =~= old_items);
    }

    pub fn u8(&mut self, v: u8)
        requires
            old(self).wf(),
        ensures
            final(self).wf(),
            final(self).items@ == old(self).items@.push(Item::Byte(v)),
    {
        proof { Writer::lemma_append(self.items@, Item::Byte(v)); }
        self.buf.push(v);
        self.items = Ghost(self.items@.push(Item::Byte(v)));
        assert(self.buf@ =~= items_bytes(self.items@));
    }

    /// A flag as one byte, 1 or 0.
    pub fn b(&mut self, v: bool)
        requires
            old(self).wf(),
        ensures
            final(self).wf(),
            final(self).items@ == old(self).items@.push(Item::Byte(if v { 1 } else { 0 })),
    {
        self.u8(if v { 1 } else { 0 });
    }

    fn extend(&mut self, bytes: &[u8])
        ensures
            final(self).buf@ == old(self).buf@ + bytes@,
            final(self).items == old(self).items,
    {
        let mut i: usize = 0;
        let ghost start = self.buf@;
        while i < bytes.len()
            invariant
                i <= bytes@.len(),
                self.buf@ == start + bytes@.subrange(0, i as int),
                self.items == old(self).items,
                start == old(self).buf@,
            decreases bytes@.len() - i,
        {
            self.buf.push(bytes[i]);
            i = i + 1;
            assert(self.buf@ =~= start + bytes@.subrange(0, i as int));
        }
        assert(bytes@.subrange(0, i as int) =~= bytes@);
    }

    pub fn u16(&mut self, v: u16)
        requires
            old(self).wf(),
        ensures
            final(self).wf(),
            final(self).items@ == old(self).items@.push(Item::Word(v)),
    {
        proof { Writer::lemma_append(self.items@, Item::Word(v)); }
        let bytes = vstd::bytes::u16_to_le_bytes(v);
        self.extend(bytes.as_slice());
        self.items = Ghost(self.items@.push(Item::Word(v)));
    }

    pub fn u32(&mut self, v: u32)
        requires
            old(self).wf(),
        ensures
            final(self).wf(),
            final(self).items@ == old(self).items@.push(Item::Long(v)),
    {
        proof { Writer::lemma_append(self.items@, Item::Long(v)); }
        let bytes = vstd::bytes::u32_to_le_bytes(v);
        self.extend(bytes.as_slice());
        self.items = Ghost(self.items@.push(Item::Long(v)));
    }

    pub fn u64(&mut self, v: u64)
        requires
            old(self).wf(),
        ensures
            final(self).wf(),
            final(self).items@ == old(self).items@.push(Item::Quad(v)),
    {
        proof { Writer::lemma_append(self.items@, Item::Quad(v)); }
        let bytes = vstd::bytes::u64_to_le_bytes(v);
        self.extend(bytes.as_slice());
        self.items = Ghost(self.items@.push(Item::Quad(v)));
    }

    pub fn bytes(&mut self, v: &[u8])
        requires
            old(self).wf(),
        ensures
            final(self).wf(),
            final(self).items@ == old(self).items@.push(Item::Bytes(v@)),
    {
        proof { Writer::lemma_append(self.items@, Item::Bytes(v@)); }
        self.extend(v);
        self.items = Ghost(self.items@.push(Item::Bytes(v@)));
    }

    pub fn longs(&mut self, v: &Vec<u32>)
        requires
            old(self).wf(),
        ensures
            final(self).wf(),
            final(self).items@ == old(self).items@.push(Item::Longs(v@)),
    {
        proof { Writer::lemma_append(self.items@, Item::Longs(v@)); }
        let ghost start = self.buf@;
        let mut i: usize = 0;
        while i < v.len()
            invariant
                i <= v@.len(),
                self.buf@ == start + longs_bytes(v@.subrange(0, i as int)),
                self.items == old(self).items,
                start == old(self).buf@,
            decreases v@.len() - i,
        {
            let bytes = vstd::bytes::u32_to_le_bytes(v[i]);
            self.extend(bytes.as_slice());
            proof {
                let s = v@.subrange(0, i + 1);
                assert(s.drop_last() =~= v@.subrange(0, i as int));
                assert(s.last() == v@[i as int]);
            }
            i = i + 1;
        }
        assert(v@.subrange(0, i as int) =~= v@);
        self.items = Ghost(self.items@.push(Item::Longs(v@)));
    }
}

/// Reads an image field by field, following a layout. Each read asks that
/// the field lie within the image.
pub struct Reader<'a> {
    pub d: &'a [u8],
    pub p: usize,
    pub shape: Ghost<Seq<Kind>>,
}

impl<'a> Reader<'a> {
    /// Position and layout agree: the fields read so far are those of
    /// `shape` at the start of the image.
    pub open spec fn wf(self) -> bool {
        &&& self.p == shape_len(self.shape@)
        &&& self.p <= self.d@.len()
    }

    /// The fields read so far.
    pub open spec fn items(self) -> Seq<Item> {
        items_from(self.d@, self.shape@)
    }

    pub fn new(d: &'a [u8]) -> (r: Reader<'a>)
        ensures
            r.wf(),
            r.d@ == d@,
            r.p == 0,
            r.shape@ == Seq::<Kind>::empty(),
    {
        Reader { d, p: 0, shape: Ghost(Seq::empty()) }
    }

    proof fn lemma_step(d: Seq<u8>, sh: Seq<Kind>, k: Kind)
        ensures
            items_from(d, sh.push(k)) == items_from(d, sh).push(
                item_from(d.subrange(shape_len(sh) as int, (shape_len(sh) + kind_len(k)) as int), k),
            ),
            shape_len(sh.push(k)) == shape_len(sh) + kind_len(k),
    {
        assert(sh.push(k).drop_last() =~= sh);
    }

    /// The next `n` raw bytes, a field of kind `k`.
    fn take(&mut self, n: usize, k: Ghost<Kind>) -> (r: &'a [u8])
        requires
            old(self).wf(),
            kind_len(k@) == n,
            old(self).p + n <= old(self).d@.len(),
        ensures
            final(self).d == old(self).d,
            final(self).wf(),
            final(self).p == old(self).p + n,
            final(self).shape@ == old(self).shape@.push(k@),
            final(self).items() == old(self).items().push(item_from(r@, k@)),
            r@ == old(self).d@.subrange(old(self).p as int, old(self).p + n),
    {
        let len = self.d.len();
        let s = vstd::slice::slice_subrange(self.d, self.p, self.p + n);
        proof { Reader::lemma_step(self.d@, self.shape@, k@); }
        self.p = self.p + n;
        self.shape = Ghost(self.shape@.push(k@));
        s
    }

    pub fn u8(&mut self) -> (r: u8)
        requires
            old(self).wf(),
            old(self).p + 1 <= old(self).d@.len(),
        ensures
            final(self).d == old(self).d,
            final(self).wf(),
            final(self).p == old(self).p + 1,
            final(self).shape@ == old(self).shape@.push(Kind::Byte),
            final(self).items() == old(self).items().push(Item::Byte(r)),
    {
        let s = self.take(1, Ghost(Kind::Byte));
        s[0]
    }

    pub fn u16(&mut self) -> (r: u16)
        requires
            old(self).wf(),
            old(self).p + 2 <= old(self).d@.len(),
        ensures
            final(self).d == old(self).d,
            final(self).wf(),
            final(self).p == old(self).p + 2,
            final(self).shape@ == old(self).shape@.push(Kind::Word),
            final(self).items() == old(self).items().push(Item::Word(r)),
    {
        let s = self.take(2, Ghost(Kind::Word));
        vstd::bytes::u16_from_le_bytes(s)
    }

    pub fn u32(&mut self) -> (r: u32)
        requires
            old(self).wf(),
            old(self).p + 4 <= old(self).d@.len(),
        ensures
            final(self).d == old(self).d,
            final(self).wf(),
            final(self).p == old(self).p + 4,
            final(self).shape@ == old(self).shape@.push(Kind::Long),
            final(self).items() == old(self).items().push(Item::Long(r)),
    {
        let s = self.take(4, Ghost(Kind::Long));
        vstd::bytes::u32_from_le_bytes(s)
    }

    pub fn u64(&mut self) -> (r: u64)
        requires
            old(self).wf(),
            old(self).p + 8 <= old(self).d@.len(),
        ensures
            final(self).d == old(self).d,
            final(self).wf(),
            final(self).p == old(self).p + 8,
            final(self).shape@ == old(self).shape@.push(Kind::Quad),
            final(self).items() == old(self).items().push(Item::Quad(r)),
    {
        let s = self.take(8, Ghost(Kind::Quad));
        vstd::bytes::u64_from_le_bytes(s)
    }

    /// `n` raw bytes.
    pub fn bytes(&mut self, n: usize) -> (r: Vec<u8>)
        requires
            old(self).wf(),
            old(self).p + n <= old(self).d@.len(),
        ensures
            final(self).d == old(self).d,
            final(self).wf(),
            final(self).p == old(self).p + n,
            final(self).shape@ == old(self).shape@.push(Kind::Bytes(n as nat)),
            final(self).items() == old(self).items().push(Item::Bytes(r@)),
            r@.len() == n,
    {
        let s = self.take(n, Ghost(Kind::Bytes(n as nat)));
        copy_bytes(s)
    }

    /// `n` little-endian 32-bit words.
    pub fn longs(&mut self, n: usize) -> (r: Vec<u32>)
        requires
            old(self).wf(),
            n <= 0x1000_0000,
            old(self).p + 4 * n <= old(self).d@.len(),
        ensures
            final(self).d == old(self).d,
            final(self).wf(),
            final(self).p == old(self).p + 4 * n,
            final(self).shape@ == old(self).shape@.push(Kind::Longs(n as nat)),
            final(self).items() == old(self).items().push(Item::Longs(r@)),
            r@.len() == n,
    {
        let s = self.take(4 * n, Ghost(Kind::Longs(n as nat)));
        let mut out: Vec<u32> = Vec::new();
        let mut i: usize = 0;
        while i < n
            invariant
                i <= n,
                n <= 0x1000_0000,
                s@.len() == 4 * n,
                out@ == longs_from(s@, i as nat),
            decreases n - i,
        {
            let w = vstd::bytes::u32_from_le_bytes(vstd::slice::slice_subrange(s, 4 * i, 4 * i + 4));
            out.push(w);
            i = i + 1;
        }
        proof { lemma_longs_from_len(s@, n as nat); }
        out
    }
}

pub proof fn lemma_longs_from_len(b: Seq<u8>, n: nat)
    ensures
        longs_from(b, n).len() == n,
    decreases n,
{
    if n > 0 {
        lemma_longs_from_len(b, (n - 1) as nat);
    }
}
} // verus!
