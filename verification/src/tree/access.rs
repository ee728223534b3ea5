//! Accessors that locate an entity within an entity tree, and the path
//! format in which they are written.
use vstd::prelude::*;

use crate::text::{
    chars_to_string, int_text, is_trimmed, is_whitespace_char, lemma_int_text_parses, parse_int,
    parse_int_range, parse_nonzero, parse_nonzero_range, push_int_text, str_to_chars, trim,
    trim_bounds, trim_end, trim_start,
};

verus! {

// ---------------------------------------------------------------------------
// Data
// ---------------------------------------------------------------------------

/// Determines how a child entity is accessed.
#[derive(Debug, Clone, PartialEq, Eq)]
pub enum ChildAccess {
    /// Access the child with the given ID.
    ///
    /// The second value is the (non-zero) occurrence: the `n`th child with
    /// that ID. A negative occurrence begins the search from the last child.
    Id(String, isize),
    /// Access the child at the given index.
    ///
    /// Negative values are offset from the last child.
    At(isize),
}

/// Determines how a sibling entity is accessed.
#[derive(Debug, Clone, PartialEq, Eq)]
pub enum SiblingAccess {
    /// Access the sibling with the given ID.
    ///
    /// The second value is the (non-zero) occurrence, offset from the current
    /// entity. A negative occurrence searches from the current entity towards
    /// the first sibling, a positive one towards the last sibling.
    Id(String, isize),
    /// Access the sibling at the given (non-zero) offset.
    At(isize),
}

/// A deserializable prototype entity reference.
#[derive(Debug, Clone, PartialEq, Eq)]
pub enum ProtoEntity {
    /// Access the entity from the given access path.
    EntityPath(String),
    /// Access a child entity.
    Child(ChildAccess),
    /// Access a sibling entity.
    Sibling(SiblingAccess),
    /// Access the parent entity.
    Parent,
    /// Access an ancestor entity the given number of levels up.
    Ancestor(usize),
    /// Access the root entity.
    Root,
}

/// One step of an [`EntityAccess`].
#[derive(Debug, Clone, PartialEq, Eq)]
pub enum AccessOp {
    /// Access the root entity.
    Root,
    /// Access a parent entity.
    Parent,
    /// Access a child entity.
    Child(ChildAccess),
    /// Access a sibling entity.
    Sibling(SiblingAccess),
}

/// An accessor used to retrieve an entity within an entity tree.
///
/// # Path format
///
/// | Examples             | Access                                 |
/// | :------------------- | :------------------------------------- |
/// | `./`                 | Self                                   |
/// | `../`                | Parent                                 |
/// | `/`                  | Root                                   |
/// | `./@2`, `@2`         | `ChildAccess::At`                      |
/// | `./foo`, `foo`       | `ChildAccess::Id` (1st occurrence)     |
/// | `./@2:foo`, `@2:foo` | `ChildAccess::Id` (nth occurrence)     |
/// | `./~2`, `~2`         | `SiblingAccess::At`                    |
/// | `./~foo`, `~foo`     | `SiblingAccess::Id` (1st occurrence)   |
/// | `./~2:foo`, `~2:foo` | `SiblingAccess::Id` (nth occurrence)   |
#[derive(Debug, Clone, PartialEq, Eq)]
pub struct EntityAccess {
    ops: Vec<AccessOp>,
}

/// A list of entity references (deserialized as a plain list).
#[derive(Debug, Clone, PartialEq, Eq)]
pub struct ProtoEntityList(pub Vec<ProtoEntity>);

/// The path segment that could not be read as an access operation.
#[derive(Debug, Clone, PartialEq, Eq)]
pub struct InvalidAccessPath {
    pub segment: String,
}

// ---------------------------------------------------------------------------
// Mathematical model
// ---------------------------------------------------------------------------

/// The mathematical value of one access step.
pub enum OpModel {
    Root,
    Parent,
    ChildId(Seq<char>, int),
    ChildAt(int),
    SiblingId(Seq<char>, int),
    SiblingAt(int),
}

impl ChildAccess {
    pub open spec fn model(self) -> OpModel {
        match self {
            ChildAccess::Id(id, n) => OpModel::ChildId(id@, n as int),
            ChildAccess::At(i) => OpModel::ChildAt(i as int),
        }
    }

    /// Occurrences are never zero.
    pub open spec fn wf(self) -> bool {
        match self {
            ChildAccess::Id(_, n) => n != 0,
            ChildAccess::At(_) => true,
        }
    }
}

impl SiblingAccess {
    pub open spec fn model(self) -> OpModel {
        match self {
            SiblingAccess::Id(id, n) => OpModel::SiblingId(id@, n as int),
            SiblingAccess::At(n) => OpModel::SiblingAt(n as int),
        }
    }

    /// Occurrences and offsets are never zero.
    pub open spec fn wf(self) -> bool {
        match self {
            SiblingAccess::Id(_, n) => n != 0,
            SiblingAccess::At(n) => n != 0,
        }
    }
}

impl AccessOp {
    pub open spec fn model(self) -> OpModel {
        match self {
            AccessOp::Root => OpModel::Root,
            AccessOp::Parent => OpModel::Parent,
            AccessOp::Child(c) => c.model(),
            AccessOp::Sibling(s) => s.model(),
        }
    }
}

impl ProtoEntity {
    pub open spec fn wf(self) -> bool {
        match self {
            ProtoEntity::Child(c) => c.wf(),
            ProtoEntity::Sibling(s) => s.wf(),
            _ => true,
        }
    }
}

/// An operation whose numbers fit `isize` and whose occurrences and sibling
/// offsets are not zero.
pub open spec fn op_wf(op: OpModel) -> bool {
    match op {
        OpModel::Root => true,
        OpModel::Parent => true,
        OpModel::ChildId(_, n) => n != 0 && isize::MIN <= n <= isize::MAX,
        OpModel::ChildAt(i) => isize::MIN <= i <= isize::MAX,
        OpModel::SiblingId(_, n) => n != 0 && isize::MIN <= n <= isize::MAX,
        OpModel::SiblingAt(n) => n != 0 && isize::MIN <= n <= isize::MAX,
    }
}

pub open spec fn ops_wf(ops: Seq<OpModel>) -> bool {
    forall|i: int| 0 <= i < ops.len() ==> op_wf(#[trigger] ops[i])
}

pub open spec fn ops_model(ops: Seq<AccessOp>) -> Seq<OpModel> {
    ops.map_values(|op: AccessOp| op.model())
}

impl View for EntityAccess {
    type V = Seq<OpModel>;

    closed spec fn view(&self) -> Seq<OpModel> {
        ops_model(self.ops@)
    }
}

// ---------------------------------------------------------------------------
// Writing paths
// ---------------------------------------------------------------------------

/// The path component written for one operation.
pub open spec fn component_text(op: OpModel) -> Seq<char> {
    match op {
        OpModel::Root => Seq::empty(),
        OpModel::Parent => seq!['.', '.'],
        OpModel::ChildAt(i) => seq!['@'] + int_text(i),
        OpModel::ChildId(id, n) => if n != 1 {
            seq!['@'] + int_text(n) + seq![':'] + id
        } else {
            id
        },
        OpModel::SiblingAt(n) => seq!['~'] + int_text(n),
        OpModel::SiblingId(id, n) => if n != 1 {
            seq!['~'] + int_text(n) + seq![':'] + id
        } else {
            seq!['~'] + id
        },
    }
}

/// `PathBuf::push` on Unix: an absolute component replaces the path;
/// otherwise a separator is added unless the path already ends with one.
pub open spec fn push_component(buf: Seq<char>, c: Seq<char>) -> Seq<char> {
    if c.len() > 0 && c[0] == '/' {
        c
    } else if buf.len() > 0 && buf.last() != '/' {
        buf + seq!['/'] + c
    } else {
        buf + c
    }
}

/// Pushes the component of every operation but `Root` onto `base`.
pub open spec fn path_fold(base: Seq<char>, ops: Seq<OpModel>) -> Seq<char>
    decreases ops.len(),
{
    if ops.len() == 0 {
        base
    } else {
        let b = path_fold(base, ops.drop_last());
        match ops.last() {
            OpModel::Root => b,
            op => push_component(b, component_text(op)),
        }
    }
}

/// The path written for a sequence of operations: it starts at `/` when the
/// first operation is `Root`, otherwise at `.`.
pub open spec fn path_text(ops: Seq<OpModel>) -> Seq<char> {
    let base = if ops.len() > 0 && ops[0] is Root {
        seq!['/']
    } else {
        seq!['.']
    };
    path_fold(base, ops)
}

// ---------------------------------------------------------------------------
// Reading paths
// ---------------------------------------------------------------------------

/// The texts between the `/` separators of a path (always at least one).
pub open spec fn segments(p: Seq<char>) -> Seq<Seq<char>>
    decreases p.len(),
{
    if p.len() == 0 {
        seq![Seq::<char>::empty()]
    } else {
        let s = segments(p.drop_last());
        if p.last() == '/' {
            s.push(Seq::<char>::empty())
        } else {
            s.update(s.len() - 1, s.last().push(p.last()))
        }
    }
}

/// The position of the first `:` in `s`, if any.
pub open spec fn first_colon(s: Seq<char>) -> Option<int> {
    if exists|k: int| 0 <= k < s.len() && s[k] == ':' && forall|j: int| 0 <= j < k ==> s[j] != ':' {
        Some(
            choose|k: int|
                0 <= k < s.len() && s[k] == ':' && forall|j: int| 0 <= j < k ==> s[j] != ':',
        )
    } else {
        None
    }
}

/// How one path segment reads.
pub enum SegmentRead {
    /// An empty segment, or `.`: no operation.
    Skip,
    /// One operation.
    Op(OpModel),
    /// A segment that cannot be read.
    Invalid,
}

/// The reading of one segment (a path component):
/// `..` is the parent; `@i` a child index; `@n:id` the `n`th child `id`;
/// `~n` a sibling offset; `~n:id` the `n`th sibling `id`; `~id` the first
/// sibling `id`; anything else the first child with that id.
pub open spec fn read_segment(s: Seq<char>) -> SegmentRead {
    if s.len() == 0 || s == seq!['.'] {
        SegmentRead::Skip
    } else if s == seq!['.', '.'] {
        SegmentRead::Op(OpModel::Parent)
    } else if s[0] == '@' {
        let r = s.drop_first();
        match first_colon(r) {
            Some(k) => match parse_nonzero(trim(r.take(k))) {
                Some(n) => SegmentRead::Op(OpModel::ChildId(trim(r.skip(k + 1)), n)),
                None => SegmentRead::Invalid,
            },
            None => match parse_int(trim(r)) {
                Some(i) => SegmentRead::Op(OpModel::ChildAt(i)),
                None => SegmentRead::Invalid,
            },
        }
    } else if s[0] == '~' {
        let r = s.drop_first();
        match first_colon(r) {
            Some(k) => match parse_nonzero(trim(r.take(k))) {
                Some(n) => SegmentRead::Op(OpModel::SiblingId(trim(r.skip(k + 1)), n)),
                None => SegmentRead::Invalid,
            },
            None => match parse_nonzero(trim(r)) {
                Some(n) => SegmentRead::Op(OpModel::SiblingAt(n)),
                None => SegmentRead::Op(OpModel::SiblingId(trim(r), 1)),
            },
        }
    } else {
        SegmentRead::Op(OpModel::ChildId(s, 1))
    }
}

/// The operations read from a list of segments, or `None` if one is invalid.
pub open spec fn read_segments(ss: Seq<Seq<char>>) -> Option<Seq<OpModel>>
    decreases ss.len(),
{
    if ss.len() == 0 {
        Some(Seq::empty())
    } else {
        match read_segments(ss.drop_last()) {
            Some(ops) => match read_segment(ss.last()) {
                SegmentRead::Skip => Some(ops),
                SegmentRead::Op(op) => Some(ops.push(op)),
                SegmentRead::Invalid => None,
            },
            None => None,
        }
    }
}

/// The operations of a path: `Root` first if it is absolute (starts with
/// `/`), then those of its segments. `None` if a segment cannot be read.
pub open spec fn parse_path(p: Seq<char>) -> Option<Seq<OpModel>> {
    match read_segments(segments(p)) {
        Some(ops) => Some(
            if p.len() > 0 && p[0] == '/' {
                seq![OpModel::Root] + ops
            } else {
                ops
            },
        ),
        None => None,
    }
}

// ---------------------------------------------------------------------------
// Constructors and builders
// ---------------------------------------------------------------------------

/// The default occurrence of an id-based access.
pub fn get_one() -> (r: isize)
    ensures
        r == 1,
{
    1
}

impl ChildAccess {
    /// The first child with the given ID.
    pub fn from_id(id: String) -> (r: ChildAccess)
        ensures
            r == ChildAccess::Id(id, 1),
    {
        ChildAccess::Id(id, get_one())
    }

    /// The child at the given index.
    pub fn from_index(index: isize) -> (r: ChildAccess)
        ensures
            r == ChildAccess::At(index),
    {
        ChildAccess::At(index)
    }
}

impl SiblingAccess {
    /// The first sibling with the given ID after this entity.
    pub fn from_id(id: String) -> (r: SiblingAccess)
        ensures
            r == SiblingAccess::Id(id, 1),
    {
        SiblingAccess::Id(id, get_one())
    }

    /// The sibling at the given (non-zero) offset.
    pub fn from_offset(offset: isize) -> (r: SiblingAccess)
        requires
            offset != 0,
        ensures
            r == SiblingAccess::At(offset),
    {
        SiblingAccess::At(offset)
    }
}

impl Default for EntityAccess {
    /// The access of the current entity itself (no operations).
    fn default() -> (r: EntityAccess)
        ensures
            r@ == Seq::<OpModel>::empty(),
    {
        let r = EntityAccess { ops: Vec::new() };
        assert(r@ =~= Seq::<OpModel>::empty());
        r
    }
}

impl EntityAccess {
    /// Create an [`EntityAccess`] that starts from the root.
    pub fn root() -> (r: EntityAccess)
        ensures
            r@ == seq![OpModel::Root],
    {
        let r = EntityAccess { ops: vec![AccessOp::Root] };
        assert(r@ =~= seq![OpModel::Root]);
        r
    }

    /// Add a parent access.
    pub fn parent(self) -> (r: EntityAccess)
        ensures
            r@ == self@.push(OpModel::Parent),
    {
        let mut ops = self.ops;
        ops.push(AccessOp::Parent);
        let r = EntityAccess { ops };
        assert(r@ =~= self@.push(OpModel::Parent));
        r
    }

    /// Add a child access.
    pub fn child(self, child: ChildAccess) -> (r: EntityAccess)
        ensures
            r@ == self@.push(child.model()),
    {
        let ghost m = child.model();
        let mut ops = self.ops;
        ops.push(AccessOp::Child(child));
        let r = EntityAccess { ops };
        assert(r@ =~= self@.push(m));
        r
    }

    /// Add a sibling access.
    pub fn sibling(self, sibling: SiblingAccess) -> (r: EntityAccess)
        ensures
            r@ == self@.push(sibling.model()),
    {
        let ghost m = sibling.model();
        let mut ops = self.ops;
        ops.push(AccessOp::Sibling(sibling));
        let r = EntityAccess { ops };
        assert(r@ =~= self@.push(m));
        r
    }

    /// The operations of this access, in order.
    pub fn ops(&self) -> (r: &Vec<AccessOp>)
        ensures
            ops_model(r@) == self@,
    {
        &self.ops
    }

    /// Whether no occurrence or sibling offset of this access is zero.
    pub fn is_valid(&self) -> (r: bool)
        ensures
            r == ops_wf(self@),
    {
        let mut i: usize = 0;
        while i < self.ops.len()
            invariant
                i <= self.ops@.len(),
                forall|j: int| 0 <= j < i ==> op_wf(#[trigger] self@[j]),
            decreases self.ops@.len() - i,
        {
            let ok = match &self.ops[i] {
                AccessOp::Root => true,
                AccessOp::Parent => true,
                AccessOp::Child(ChildAccess::Id(_, n)) => *n != 0,
                AccessOp::Child(ChildAccess::At(_)) => true,
                AccessOp::Sibling(SiblingAccess::Id(_, n)) => *n != 0,
                AccessOp::Sibling(SiblingAccess::At(n)) => *n != 0,
            };
            assert(self@[i as int] == self.ops@[i as int].model());
            if !ok {
                return false;
            }
            i = i + 1;
        }
        true
    }

    /// An access with the given operations.
    pub fn from_ops(ops: Vec<AccessOp>) -> (r: EntityAccess)
        ensures
            r@ == ops_model(ops@),
    {
        EntityAccess { ops }
    }
}


// ---------------------------------------------------------------------------
// Writing paths (executable)
// ---------------------------------------------------------------------------

fn push_chars(out: &mut Vec<char>, c: &Vec<char>)
    ensures
        final(out)@ == old(out)@ + c@,
{
    let mut i: usize = 0;
    while i < c.len()
        invariant
            i <= c@.len(),
            out@ == old(out)@ + c@.take(i as int),
        decreases c@.len() - i,
    {
        out.push(c[i]);
        assert(out@ =~= old(out)@ + c@.take(i + 1));
        i = i + 1;
    }
    assert(c@.take(i as int) =~= c@);
}

/// Appends the component text of a child or sibling access.
fn push_access_component(out: &mut Vec<char>, sigil: char, id: &String, n: isize)
    ensures
        final(out)@ == old(out)@ + (if n != 1 {
            seq![sigil] + int_text(n as int) + seq![':'] + id@
        } else {
            seq![sigil] + id@
        }),
{
    out.push(sigil);
    if n != 1 {
        push_int_text(out, n);
        out.push(':');
    }
    let chars = str_to_chars(id.as_str());
    push_chars(out, &chars);
    proof {
        if n != 1 {
            assert(final(out)@ =~= old(out)@ + (seq![sigil] + int_text(n as int) + seq![':'] + id@));
        } else {
            assert(final(out)@ =~= old(out)@ + (seq![sigil] + id@));
        }
    }
}

/// The component text of one operation.
fn op_component(op: &AccessOp) -> (r: Vec<char>)
    ensures
        r@ == component_text(op.model()),
{
    let mut out: Vec<char> = Vec::new();
    match op {
        AccessOp::Root => {},
        AccessOp::Parent => {
            out.push('.');
            out.push('.');
        },
        AccessOp::Child(ChildAccess::At(i)) => {
            out.push('@');
            push_int_text(&mut out, *i);
        },
        AccessOp::Child(ChildAccess::Id(id, n)) => {
            if *n != 1 {
                push_access_component(&mut out, '@', id, *n);
            } else {
                let chars = str_to_chars(id.as_str());
                push_chars(&mut out, &chars);
            }
        },
        AccessOp::Sibling(SiblingAccess::At(n)) => {
            out.push('~');
            push_int_text(&mut out, *n);
        },
        AccessOp::Sibling(SiblingAccess::Id(id, n)) => {
            push_access_component(&mut out, '~', id, *n);
        },
    }
    assert(out@ =~= component_text(op.model()));
    out
}

/// `PathBuf::push` of one component onto a path.
fn push_path(buf: &mut Vec<char>, c: &Vec<char>)
    ensures
        final(buf)@ == push_component(old(buf)@, c@),
{
    if c.len() > 0 && c[0] == '/' {
        let mut fresh: Vec<char> = Vec::new();
        push_chars(&mut fresh, c);
        *buf = fresh;
        assert(buf@ =~= c@);
    } else {
        if buf.len() > 0 && buf[buf.len() - 1] != '/' {
            buf.push('/');
        }
        push_chars(buf, c);
    }
}

impl EntityAccess {
    /// The access path of this access, in the format of the table above.
    pub fn to_path(&self) -> (r: String)
        ensures
            r@ == path_text(self@),
    {
        let mut buf: Vec<char> = Vec::new();
        if self.ops.len() > 0 && matches!(self.ops[0], AccessOp::Root) {
            buf.push('/');
        } else {
            buf.push('.');
        }
        let ghost base = buf@;
        assert(base == (if self@.len() > 0 && self@[0] is Root {
            seq!['/']
        } else {
            seq!['.']
        }));
        let mut i: usize = 0;
        while i < self.ops.len()
            invariant
                i <= self.ops@.len(),
                self@ == ops_model(self.ops@),
                buf@ == path_fold(base, self@.take(i as int)),
            decreases self.ops@.len() - i,
        {
            let op = &self.ops[i];
            assert(self@.take(i + 1).drop_last() =~= self@.take(i as int));
            assert(self@.take(i + 1).last() == op.model());
            match op {
                AccessOp::Root => {},
                _ => {
                    let c = op_component(op);
                    push_path(&mut buf, &c);
                },
            }
            i = i + 1;
        }
        assert(self@.take(i as int) =~= self@);
        let n = buf.len();
        chars_to_string(&buf, 0, n)
    }
}

// ---------------------------------------------------------------------------
// Reading paths (executable)
// ---------------------------------------------------------------------------

proof fn lemma_first_colon(s: Seq<char>, k: int)
    requires
        0 <= k < s.len(),
        s[k] == ':',
        forall|j: int| 0 <= j < k ==> s[j] != ':',
    ensures
        first_colon(s) == Some(k),
{
    let c = choose|c: int|
        0 <= c < s.len() && s[c] == ':' && forall|j: int| 0 <= j < c ==> s[j] != ':';
    assert(0 <= c < s.len() && s[c] == ':' && forall|j: int| 0 <= j < c ==> s[j] != ':');
    if c < k {
        assert(s[c] != ':');
    }
    if c > k {
        assert(s[k] != ':');
    }
}

/// The position of the first `:` in `v[lo..hi]` (as an index into `v`).
fn find_colon(v: &Vec<char>, lo: usize, hi: usize) -> (r: Option<usize>)
    requires
        lo <= hi <= v@.len(),
    ensures
        match r {
            Some(k) => lo <= k < hi && first_colon(v@.subrange(lo as int, hi as int)) == Some(
                k - lo,
            ),
            None => first_colon(v@.subrange(lo as int, hi as int)) is None,
        },
{
    let ghost s = v@.subrange(lo as int, hi as int);
    let mut k = lo;
    while k < hi
        invariant
            lo <= k <= hi <= v@.len(),
            s == v@.subrange(lo as int, hi as int),
            forall|j: int| 0 <= j < k - lo ==> s[j] != ':',
        decreases hi - k,
    {
        if v[k] == ':' {
            proof {
                lemma_first_colon(s, k - lo);
            }
            return Some(k);
        }
        k = k + 1;
    }
    None
}

/// Reads the segment `v[lo..hi]`: `Ok(None)` to skip it, `Ok(Some(op))` for
/// an operation, `Err(())` if it cannot be read.
fn read_segment_exec(v: &Vec<char>, lo: usize, hi: usize) -> (r: Result<Option<AccessOp>, ()>)
    requires
        lo <= hi <= v@.len(),
    ensures
        ({
            let s = v@.subrange(lo as int, hi as int);
            match r {
                Ok(None) => read_segment(s) is Skip,
                Ok(Some(op)) => read_segment(s) == SegmentRead::Op(op.model()),
                Err(()) => read_segment(s) is Invalid,
            }
        }),
{
    let ghost s = v@.subrange(lo as int, hi as int);
    if hi == lo {
        return Ok(None);
    }
    if hi - lo == 1 && v[lo] == '.' {
        assert(s =~= seq!['.']);
        return Ok(None);
    }
    assert(s != seq!['.']) by {
        if s == seq!['.'] {
            assert(s.len() == 1 && s[0] == '.');
        }
    }
    if hi - lo == 2 && v[lo] == '.' && v[lo + 1] == '.' {
        assert(s =~= seq!['.', '.']);
        return Ok(Some(AccessOp::Parent));
    }
    assert(s != seq!['.', '.']) by {
        if s == seq!['.', '.'] {
            assert(s.len() == 2 && s[0] == '.' && s[1] == '.');
        }
    }
    let first = v[lo];
    assert(s[0] == first);
    let ghost r = s.drop_first();
    assert(r =~= v@.subrange(lo + 1, hi as int));
    if first == '@' || first == '~' {
        match find_colon(v, lo + 1, hi) {
            Some(k) => {
                let (a, b) = trim_bounds(v, lo + 1, k);
                assert(r.take(k - lo - 1) =~= v@.subrange(lo + 1, k as int));
                let (c, d) = trim_bounds(v, k + 1, hi);
                assert(r.skip(k - lo) =~= v@.subrange(k + 1, hi as int));
                match parse_nonzero_range(v, a, b) {
                    Some(n) => {
                        let id = chars_to_string(v, c, d);
                        if first == '@' {
                            Ok(Some(AccessOp::Child(ChildAccess::Id(id, n))))
                        } else {
                            Ok(Some(AccessOp::Sibling(SiblingAccess::Id(id, n))))
                        }
                    },
                    None => Err(()),
                }
            },
            None => {
                let (a, b) = trim_bounds(v, lo + 1, hi);
                if first == '@' {
                    match parse_int_range(v, a, b) {
                        Some(i) => Ok(Some(AccessOp::Child(ChildAccess::At(i)))),
                        None => Err(()),
                    }
                } else {
                    match parse_nonzero_range(v, a, b) {
                        Some(n) => Ok(Some(AccessOp::Sibling(SiblingAccess::At(n)))),
                        None => {
                            let id = chars_to_string(v, a, b);
                            Ok(Some(AccessOp::Sibling(SiblingAccess::Id(id, get_one()))))
                        },
                    }
                }
            },
        }
    } else {
        let id = chars_to_string(v, lo, hi);
        Ok(Some(AccessOp::Child(ChildAccess::Id(id, get_one()))))
    }
}

impl EntityAccess {
    /// Reads an access path (see the table above).
    ///
    /// Fails, naming the segment, when a segment cannot be read: an `@n:id`
    /// or `~n:id` whose `n` is not a non-zero integer, or an `@i` whose `i`
    /// is not an integer.
    pub fn try_from_path(path: &str) -> (r: Result<EntityAccess, InvalidAccessPath>)
        ensures
            match r {
                Ok(a) => parse_path(path@) == Some(a@),
                Err(e) => parse_path(path@) is None && read_segment(e.segment@) is Invalid,
            },
    {
        let v = str_to_chars(path);
        let mut ops: Vec<AccessOp> = Vec::new();
        let absolute = v.len() > 0 && v[0] == '/';
        if absolute {
            ops.push(AccessOp::Root);
        }
        let ghost prefix = ops_model(ops@);
        assert(prefix =~= (if absolute {
            seq![OpModel::Root]
        } else {
            Seq::<OpModel>::empty()
        }));
        let mut failed: Option<(usize, usize)> = None;
        let mut start: usize = 0;
        let mut i: usize = 0;
        let ghost mut segs: Seq<Seq<char>> = segments(v@.take(0));
        let ghost mut done: Seq<OpModel> = Seq::empty();
        assert(v@.take(0) =~= Seq::<char>::empty());
        assert(segs.drop_last() =~= Seq::<Seq<char>>::empty());
        while i < v.len()
            invariant
                start <= i <= v@.len(),
                v@ == path@,
                segs == segments(v@.take(i as int)),
                segs.len() >= 1,
                segs.last() == v@.subrange(start as int, i as int),
                match failed {
                    Some((a, b)) => a <= b <= v@.len() && read_segments(segs.drop_last()) is None
                        && read_segment(v@.subrange(a as int, b as int)) is Invalid,
                    None => read_segments(segs.drop_last()) == Some(done) && ops_model(ops@)
                        == prefix + done,
                },
            decreases v@.len() - i,
        {
            let c = v[i];
            assert(v@.take(i + 1).drop_last() =~= v@.take(i as int));
            assert(v@.take(i + 1).last() == c);
            if c == '/' {
                let ghost old_segs = segs;
                proof {
                    segs = segs.push(Seq::<char>::empty());
                    assert(segs.drop_last() =~= old_segs);
                }
                if failed.is_none() {
                    match read_segment_exec(&v, start, i) {
                        Ok(None) => {},
                        Ok(Some(op)) => {
                            let ghost m = op.model();
                            let ghost old_ops = ops@;
                            proof {
                                done = done.push(m);
                            }
                            ops.push(op);
                            assert(ops@ == old_ops.push(ops@.last()));
                            assert(ops_model(ops@) =~= ops_model(old_ops).push(m));
                            assert(ops_model(ops@) =~= prefix + done);
                        },
                        Err(()) => {
                            failed = Some((start, i));
                        },
                    }
                }
                start = i + 1;
                assert(segs.last() =~= v@.subrange(start as int, i + 1));
            } else {
                let ghost old_segs = segs;
                proof {
                    segs = segs.update(segs.len() - 1, segs.last().push(c));
                    assert(segs.drop_last() =~= old_segs.drop_last());
                    assert(segs.last() =~= v@.subrange(start as int, i + 1));
                }
            }
            i = i + 1;
        }
        assert(v@.take(i as int) =~= v@);
        if failed.is_none() {
            match read_segment_exec(&v, start, i) {
                Ok(None) => {},
                Ok(Some(op)) => {
                    let ghost m = op.model();
                    let ghost old_ops = ops@;
                    proof {
                        done = done.push(m);
                    }
                    ops.push(op);
                    assert(ops_model(ops@) =~= ops_model(old_ops).push(m));
                    assert(ops_model(ops@) =~= prefix + done);
                },
                Err(()) => {
                    failed = Some((start, i));
                },
            }
        }
        match failed {
            Some((a, b)) => Err(InvalidAccessPath { segment: chars_to_string(&v, a, b) }),
            None => {
                let r = EntityAccess { ops };
                Ok(r)
            },
        }
    }

    /// Reads an access path (see the table above) that is known to be
    /// readable.
    pub fn from_path(path: &str) -> (r: EntityAccess)
        requires
            parse_path(path@) is Some,
        ensures
            parse_path(path@) == Some(r@),
    {
        match EntityAccess::try_from_path(path) {
            Ok(a) => a,
            Err(_) => {
                assert(false);
                EntityAccess::default()
            },
        }
    }
}

// ---------------------------------------------------------------------------
// From entity references
// ---------------------------------------------------------------------------

/// The operations a prototype entity reference stands for, or `None` for a
/// path that cannot be read.
pub open spec fn proto_entity_ops(e: ProtoEntity) -> Option<Seq<OpModel>> {
    match e {
        ProtoEntity::EntityPath(p) => parse_path(p@),
        ProtoEntity::Child(c) => Some(seq![c.model()]),
        ProtoEntity::Sibling(s) => Some(seq![s.model()]),
        ProtoEntity::Parent => Some(seq![OpModel::Parent]),
        ProtoEntity::Ancestor(depth) => Some(Seq::new(depth as nat, |i: int| OpModel::Parent)),
        ProtoEntity::Root => Some(seq![OpModel::Root]),
    }
}

impl ProtoEntity {
    /// A copy of this reference.
    pub fn duplicate(&self) -> (r: ProtoEntity)
        ensures
            r == *self,
    {
        match self {
            ProtoEntity::EntityPath(p) => ProtoEntity::EntityPath(p.clone()),
            ProtoEntity::Child(ChildAccess::Id(id, n)) => ProtoEntity::Child(
                ChildAccess::Id(id.clone(), *n),
            ),
            ProtoEntity::Child(ChildAccess::At(i)) => ProtoEntity::Child(ChildAccess::At(*i)),
            ProtoEntity::Sibling(SiblingAccess::Id(id, n)) => ProtoEntity::Sibling(
                SiblingAccess::Id(id.clone(), *n),
            ),
            ProtoEntity::Sibling(SiblingAccess::At(n)) => ProtoEntity::Sibling(
                SiblingAccess::At(*n),
            ),
            ProtoEntity::Parent => ProtoEntity::Parent,
            ProtoEntity::Ancestor(d) => ProtoEntity::Ancestor(*d),
            ProtoEntity::Root => ProtoEntity::Root,
        }
    }
}

impl EntityAccess {
    /// The access a prototype entity reference stands for; fails for an
    /// entity path that cannot be read.
    pub fn try_from_proto_entity(value: ProtoEntity) -> (r: Result<EntityAccess, InvalidAccessPath>)
        ensures
            match r {
                Ok(a) => proto_entity_ops(value) == Some(a@),
                Err(_) => proto_entity_ops(value) is None,
            },
    {
        match value {
            ProtoEntity::EntityPath(path) => EntityAccess::try_from_path(path.as_str()),
            ProtoEntity::Child(c) => {
                let r = EntityAccess::default().child(c);
                assert(r@ =~= seq![c.model()]);
                Ok(r)
            },
            ProtoEntity::Sibling(s) => {
                let r = EntityAccess::default().sibling(s);
                assert(r@ =~= seq![s.model()]);
                Ok(r)
            },
            ProtoEntity::Parent => {
                let r = EntityAccess::default().parent();
                assert(r@ =~= seq![OpModel::Parent]);
                Ok(r)
            },
            ProtoEntity::Ancestor(depth) => {
                let mut access = EntityAccess::default();
                let mut i: usize = 0;
                while i < depth
                    invariant
                        i <= depth,
                        access@ == Seq::new(i as nat, |j: int| OpModel::Parent),
                    decreases depth - i,
                {
                    access = access.parent();
                    assert(access@ =~= Seq::new((i + 1) as nat, |j: int| OpModel::Parent));
                    i = i + 1;
                }
                Ok(access)
            },
            ProtoEntity::Root => Ok(EntityAccess::root()),
        }
    }

    /// The access a prototype entity reference stands for, whose path (if
    /// it is one) is known to be readable.
    pub fn from_proto_entity(value: ProtoEntity) -> (r: EntityAccess)
        requires
            proto_entity_ops(value) is Some,
        ensures
            proto_entity_ops(value) == Some(r@),
    {
        match EntityAccess::try_from_proto_entity(value) {
            Ok(a) => a,
            Err(_) => {
                assert(false);
                EntityAccess::default()
            },
        }
    }
}

// ---------------------------------------------------------------------------
// Writing then reading a path gives the access back
// ---------------------------------------------------------------------------

pub open spec fn has_no_char(s: Seq<char>, c: char) -> bool {
    forall|i: int| 0 <= i < s.len() ==> #[trigger] s[i] != c
}

/// An operation (other than `Root`) that its path component reads back as:
/// ids hold no `/`; a first-occurrence child id is not empty, not `.` or
/// `..`, and does not start with `@` or `~`; other ids have no surrounding
/// whitespace; a first-occurrence sibling id holds no `:` and is not itself
/// a non-zero integer.
pub open spec fn op_writable(op: OpModel) -> bool {
    op_wf(op) && match op {
        OpModel::Root => false,
        OpModel::Parent => true,
        OpModel::ChildAt(_) => true,
        OpModel::SiblingAt(_) => true,
        OpModel::ChildId(id, n) => has_no_char(id, '/') && if n == 1 {
            id.len() > 0 && id != seq!['.'] && id != seq!['.', '.'] && id[0] != '@' && id[0] != '~'
        } else {
            is_trimmed(id)
        },
        OpModel::SiblingId(id, n) => has_no_char(id, '/') && is_trimmed(id) && (n == 1
            ==> has_no_char(id, ':') && parse_nonzero(id) is None),
    }
}

/// Operations whose path reads back as themselves: `Root` may only come
/// first, and every other operation is writable.
pub open spec fn path_writable(ops: Seq<OpModel>) -> bool {
    forall|i: int|
        0 <= i < ops.len() ==> (i == 0 && ops[i] is Root) || op_writable(#[trigger] ops[i])
}

pub proof fn lemma_segments_nonempty(p: Seq<char>)
    ensures
        segments(p).len() >= 1,
    decreases p.len(),
{
    if p.len() > 0 {
        lemma_segments_nonempty(p.drop_last());
    }
}

/// Appending text without separators extends the last segment.
proof fn lemma_segments_append(q: Seq<char>, c: Seq<char>)
    requires
        has_no_char(c, '/'),
    ensures
        segments(q + c) == segments(q).update(
            segments(q).len() - 1,
            segments(q).last() + c,
        ),
    decreases c.len(),
{
    lemma_segments_nonempty(q);
    let s0 = segments(q);
    if c.len() == 0 {
        assert(q + c =~= q);
        assert(s0.last() + c =~= s0.last());
        assert(s0.update(s0.len() - 1, s0.last() + c) =~= s0);
    } else {
        let c0 = c.drop_last();
        assert(has_no_char(c0, '/')) by {
            assert forall|i: int| 0 <= i < c0.len() implies #[trigger] c0[i] != '/' by {
                assert(c0[i] == c[i]);
            }
        }
        lemma_segments_append(q, c0);
        let p = q + c;
        assert(p.drop_last() =~= q + c0);
        assert(p.last() == c.last());
        assert(c.last() != '/');
        let s = segments(q + c0);
        assert(s == s0.update(s0.len() - 1, s0.last() + c0));
        assert(s.len() == s0.len());
        assert(s.last() == s0.last() + c0);
        assert(segments(p) == s.update(s.len() - 1, s.last().push(c.last())));
        assert((s0.last() + c0).push(c.last()) =~= s0.last() + c);
        assert(segments(p) =~= s0.update(s0.len() - 1, s0.last() + c));
    }
}

proof fn lemma_segments_base()
    ensures
        segments(seq!['/']) == seq![Seq::<char>::empty(), Seq::<char>::empty()],
        segments(seq!['.']) == seq![seq!['.']],
        read_segments(seq![Seq::<char>::empty()]) == Some(Seq::<OpModel>::empty()),
        read_segments(seq![Seq::<char>::empty(), Seq::<char>::empty()]) == Some(
            Seq::<OpModel>::empty(),
        ),
        read_segments(seq![seq!['.']]) == Some(Seq::<OpModel>::empty()),
{
    let e = Seq::<char>::empty();
    let none = Seq::<Seq<char>>::empty();
    assert(read_segments(none) == Some(Seq::<OpModel>::empty()));
    assert(read_segment(e) is Skip);
    assert(read_segment(seq!['.']) is Skip);
    assert(seq![e].drop_last() =~= none);
    assert(seq![e].last() == e);
    assert(read_segments(seq![e]) == Some(Seq::<OpModel>::empty()));
    assert(seq![e, e].drop_last() =~= seq![e]);
    assert(seq![e, e].last() == e);
    assert(seq![seq!['.']].drop_last() =~= none);
    assert(seq![seq!['.']].last() == seq!['.']);
    assert(seq!['/'].drop_last() =~= e);
    assert(seq!['.'].drop_last() =~= e);
    assert(segments(e) == seq![e]);
    assert(segments(seq!['/']) == seq![e].push(e));
    assert(seq![e].push(e) =~= seq![e, e]);
    assert(seq![e].update(0, e.push('.')) =~= seq![seq!['.']]);
    assert(e.push('.') =~= seq!['.']);
    assert(seq![e].drop_last() =~= Seq::<Seq<char>>::empty());
}

proof fn lemma_trimmed_trim(s: Seq<char>)
    requires
        is_trimmed(s),
    ensures
        trim(s) == s,
{
    assert(trim_start(s) == s);
    assert(trim_end(s) == s);
}

proof fn lemma_no_colon(s: Seq<char>)
    requires
        has_no_char(s, ':'),
    ensures
        first_colon(s) is None,
{
}

proof fn lemma_int_text_trimmed(v: int)
    requires
        isize::MIN <= v <= isize::MAX,
    ensures
        is_trimmed(int_text(v)),
        trim(int_text(v)) == int_text(v),
        has_no_char(int_text(v), ':'),
        has_no_char(int_text(v), '/'),
        parse_int(int_text(v)) == Some(v),
        int_text(v).len() > 0,
{
    lemma_int_text_parses(v);
    let t = int_text(v);
    assert(!is_whitespace_char(t[0]));
    assert(!is_whitespace_char(t[t.len() - 1]));
    lemma_trimmed_trim(t);
}

/// The component `sigil` followed by an integer.
proof fn lemma_read_signed(sigil: char, i: int)
    requires
        sigil == '@' || sigil == '~',
        isize::MIN <= i <= isize::MAX,
    ensures
        ({
            let c = seq![sigil] + int_text(i);
            &&& c.len() >= 2
            &&& c[0] == sigil
            &&& c.drop_first() == int_text(i)
            &&& c != seq!['.'] && c != seq!['.', '.']
            &&& has_no_char(c, '/')
        }),
        first_colon(int_text(i)) is None,
        trim(int_text(i)) == int_text(i),
        parse_int(int_text(i)) == Some(i),
{
    lemma_int_text_trimmed(i);
    let t = int_text(i);
    let c = seq![sigil] + t;
    assert(c.drop_first() =~= t);
    assert(c[0] == sigil);
    lemma_no_colon(t);
    assert forall|k: int| 0 <= k < c.len() implies #[trigger] c[k] != '/' by {
        if k > 0 {
            assert(c[k] == t[k - 1]);
        }
    }
}

/// The component of `sigil`, `n` and `id` when the occurrence is not one.
proof fn lemma_read_numbered(sigil: char, n: int, id: Seq<char>)
    requires
        sigil == '@' || sigil == '~',
        n != 0,
        isize::MIN <= n <= isize::MAX,
        is_trimmed(id),
        has_no_char(id, '/'),
    ensures
        ({
            let s = seq![sigil] + int_text(n) + seq![':'] + id;
            let r = s.drop_first();
            &&& s[0] == sigil
            &&& s.len() >= 2
            &&& s != seq!['.'] && s != seq!['.', '.']
            &&& has_no_char(s, '/')
            &&& first_colon(r) == Some(int_text(n).len() as int)
            &&& parse_nonzero(trim(r.take(int_text(n).len() as int))) == Some(n)
            &&& trim(r.skip(int_text(n).len() as int + 1)) == id
        }),
{
    lemma_int_text_trimmed(n);
    let t = int_text(n);
    let s = seq![sigil] + t + seq![':'] + id;
    let r = s.drop_first();
    assert(s[0] == sigil);
    assert(r =~= t + seq![':'] + id);
    assert(r[t.len() as int] == ':');
    assert forall|j: int| 0 <= j < t.len() implies r[j] != ':' by {
        assert(r[j] == t[j]);
    }
    lemma_first_colon(r, t.len() as int);
    assert(r.take(t.len() as int) =~= t);
    assert(r.skip(t.len() as int + 1) =~= id);
    lemma_trimmed_trim(id);
    assert forall|k: int| 0 <= k < s.len() implies #[trigger] s[k] != '/' by {
        if 1 <= k < 1 + t.len() {
            assert(s[k] == t[k - 1]);
        } else if k > 1 + t.len() {
            assert(s[k] == id[k - 2 - t.len()]);
        }
    }
}

proof fn lemma_read_sibling_first(id: Seq<char>)
    requires
        has_no_char(id, '/'),
        has_no_char(id, ':'),
        is_trimmed(id),
        parse_nonzero(id) is None,
    ensures
        read_segment(seq!['~'] + id) == SegmentRead::Op(OpModel::SiblingId(id, 1)),
        has_no_char(seq!['~'] + id, '/'),
{
    let c = seq!['~'] + id;
    assert(c[0] == '~');
    assert(c.drop_first() =~= id);
    lemma_no_colon(id);
    lemma_trimmed_trim(id);
    assert(c != seq!['.']);
    assert(c != seq!['.', '.']);
    assert forall|k: int| 0 <= k < c.len() implies #[trigger] c[k] != '/' by {
        if k > 0 {
            assert(c[k] == id[k - 1]);
        }
    }
}

/// Every writable operation reads back from its component.
proof fn lemma_read_component(op: OpModel)
    requires
        op_writable(op),
    ensures
        read_segment(component_text(op)) == SegmentRead::Op(op),
        component_text(op).len() > 0,
        component_text(op)[0] != '/',
        has_no_char(component_text(op), '/'),
{
    match op {
        OpModel::Root => {},
        OpModel::Parent => {
            assert(component_text(op) =~= seq!['.', '.']);
        },
        OpModel::ChildAt(i) => {
            lemma_read_signed('@', i);
        },
        OpModel::SiblingAt(n) => {
            lemma_read_signed('~', n);
        },
        OpModel::ChildId(id, n) => {
            if n != 1 {
                lemma_read_numbered('@', n, id);
            }
        },
        OpModel::SiblingId(id, n) => {
            if n != 1 {
                lemma_read_numbered('~', n, id);
            } else {
                lemma_read_sibling_first(id);
            }
        },
    }
}

/// The operations of a prefix, without a leading `Root`.
pub open spec fn without_root(ops: Seq<OpModel>) -> Seq<OpModel> {
    if ops.len() > 0 && ops[0] is Root {
        ops.drop_first()
    } else {
        ops
    }
}

/// Pushing a component after a path that does not end with a separator.
proof fn lemma_push_after_text(q: Seq<char>, c: Seq<char>)
    requires
        q.len() > 0,
        q.last() != '/',
        has_no_char(c, '/'),
    ensures
        segments(q + seq!['/'] + c) == segments(q).push(c),
{
    let qs = q.push('/');
    assert(qs.drop_last() =~= q);
    assert(segments(qs) == segments(q).push(Seq::<char>::empty()));
    lemma_segments_append(qs, c);
    assert(qs + c =~= q + seq!['/'] + c);
    let ss = segments(q).push(Seq::<char>::empty());
    assert(ss.update(ss.len() - 1, ss.last() + c) =~= segments(q).push(c));
}

/// Pushing a component onto `/`.
proof fn lemma_push_after_root(c: Seq<char>)
    requires
        has_no_char(c, '/'),
    ensures
        segments(seq!['/'] + c) == seq![Seq::<char>::empty(), c],
        read_segments(seq![Seq::<char>::empty(), c]) == match read_segment(c) {
            SegmentRead::Skip => Some(Seq::<OpModel>::empty()),
            SegmentRead::Op(op) => Some(seq![op]),
            SegmentRead::Invalid => None,
        },
{
    lemma_segments_base();
    lemma_segments_append(seq!['/'], c);
    let ss = segments(seq!['/']);
    assert(ss.update(1, ss.last() + c) =~= seq![Seq::<char>::empty(), c]);
    let t = seq![Seq::<char>::empty(), c];
    assert(t.drop_last() =~= seq![Seq::<char>::empty()]);
    assert(Seq::<OpModel>::empty().push(read_segment(c)->Op_0) =~= seq![read_segment(c)->Op_0]);
}

proof fn lemma_path_fold_reads(base: Seq<char>, ops: Seq<OpModel>, k: int)
    requires
        path_writable(ops),
        base == seq!['/'] || base == seq!['.'],
        base == seq!['/'] <==> (ops.len() > 0 && ops[0] is Root),
        0 <= k <= ops.len(),
    ensures
        ({
            let p = path_fold(base, ops.take(k));
            &&& p.len() > 0
            &&& p[0] == base[0]
            &&& (p.last() == '/' ==> p == seq!['/'])
            &&& read_segments(segments(p)) == Some(without_root(ops.take(k)))
        }),
    decreases k,
{
    let tail = ops.take(k);
    let p = path_fold(base, tail);
    lemma_segments_base();
    if k == 0 {
        assert(tail =~= Seq::<OpModel>::empty());
        assert(without_root(tail) =~= Seq::<OpModel>::empty());
        if base == seq!['/'] {
            let e = Seq::<char>::empty();
            assert(seq![e, e].drop_last() =~= seq![e]);
        } else {
            assert(seq![seq!['.']].drop_last() =~= Seq::<Seq<char>>::empty());
        }
    } else {
        lemma_path_fold_reads(base, ops, k - 1);
        let prev = ops.take(k - 1);
        assert(tail.drop_last() =~= prev);
        let q = path_fold(base, prev);
        let op = ops[k - 1];
        assert(tail.last() == op);
        if op is Root {
            assert(k - 1 == 0);
            assert(without_root(tail) =~= Seq::<OpModel>::empty());
            assert(without_root(prev) =~= Seq::<OpModel>::empty());
        } else {
            assert(op_writable(op));
            lemma_read_component(op);
            let c = component_text(op);
            assert(p == push_component(q, c));
            assert(without_root(tail) =~= without_root(prev).push(op));
            if q.last() != '/' {
                assert(p == q + seq!['/'] + c);
                lemma_push_after_text(q, c);
                assert(segments(q).push(c).drop_last() =~= segments(q));
            } else {
                assert(q == seq!['/']);
                assert(p == seq!['/'] + c);
                lemma_push_after_root(c);
                assert(without_root(prev) =~= Seq::<OpModel>::empty());
            }
            assert(p.last() == c.last());
            assert(c.last() != '/');
            assert(p[0] == q[0]);
        }
    }
}

/// Writing an access as a path and reading the path back gives the same
/// access, for every access whose operations are writable.
pub proof fn law_path_roundtrip(ops: Seq<OpModel>)
    requires
        path_writable(ops),
    ensures
        parse_path(path_text(ops)) == Some(ops),
{
    let base = if ops.len() > 0 && ops[0] is Root {
        seq!['/']
    } else {
        seq!['.']
    };
    lemma_path_fold_reads(base, ops, ops.len() as int);
    assert(ops.take(ops.len() as int) =~= ops);
    let p = path_text(ops);
    if ops.len() > 0 && ops[0] is Root {
        assert(seq![OpModel::Root] + ops.drop_first() =~= ops);
    }
}
} // verus!
