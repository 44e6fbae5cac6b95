//! Unix paths as byte strings.
//!
//! A path is read as a sequence of components: separators only divide, repeated
//! separators and inner `.` segments say nothing, `..` is kept as written.

use vstd::prelude::*;

verus! {

/// The byte that divides the segments of a path.
pub const SEPARATOR: u8 = 47;

/// The byte `.`.
pub const DOT: u8 = 46;

/// A path as the bytes that name it.
#[derive(Debug, PartialEq, Eq)]
pub struct UnixPath {
    pub bytes: Vec<u8>,
}

impl View for UnixPath {
    type V = Seq<u8>;

    open spec fn view(&self) -> Seq<u8> {
        self.bytes@
    }
}

/// The position of the last separator of `p`, or -1.
pub open spec fn last_separator(p: Seq<u8>) -> int
    decreases p.len(),
{
    if p.len() == 0 {
        -1
    } else if p.last() == SEPARATOR {
        p.len() - 1
    } else {
        last_separator(p.drop_last())
    }
}

/// The one component of an absolute path that stands for the root.
pub open spec fn root_component() -> Seq<u8> {
    seq![SEPARATOR]
}

/// Whether a segment behind a separator adds nothing to a path.
pub open spec fn is_filler(segment: Seq<u8>) -> bool {
    segment.len() == 0 || segment == seq![DOT]
}

/// What the segment of `p` behind its last separator adds.
pub open spec fn tail_segment(p: Seq<u8>) -> Seq<u8> {
    p.subrange(last_separator(p) + 1, p.len() as int)
}

/// The components of a path, first to last. The root is the component `/`; a
/// leading `.` is a component, an inner or trailing one is not.
pub open spec fn components(p: Seq<u8>) -> Seq<Seq<u8>>
    decreases p.len(),
{
    let cut = last_separator(p);
    if p.len() == 0 {
        seq![]
    } else if cut < 0 {
        seq![p]
    } else if cut >= p.len() {
        seq![]
    } else {
        let front = if cut == 0 {
            seq![root_component()]
        } else {
            components(p.subrange(0, cut))
        };
        if is_filler(tail_segment(p)) {
            front
        } else {
            front.push(tail_segment(p))
        }
    }
}

/// Whether a path starts at the root.
pub open spec fn absolute(p: Seq<u8>) -> bool {
    p.len() > 0 && p[0] == SEPARATOR
}

/// `base` extended by `addition`: an absolute addition stands alone, any other
/// follows `base` behind one separator, which is not doubled.
pub open spec fn joined(base: Seq<u8>, addition: Seq<u8>) -> Seq<u8> {
    if absolute(addition) {
        addition
    } else if base.len() > 0 && base.last() != SEPARATOR {
        base.push(SEPARATOR) + addition
    } else {
        base + addition
    }
}

/// `p` without trailing separators and filler segments; the root stays.
pub open spec fn trimmed(p: Seq<u8>) -> Seq<u8>
    decreases p.len(),
{
    let cut = last_separator(p);
    if cut < 0 || cut >= p.len() || !is_filler(tail_segment(p)) {
        p
    } else if cut == 0 {
        root_component()
    } else {
        trimmed(p.subrange(0, cut))
    }
}

/// The path that holds `p`: `p` without its last component. A path without a
/// component besides the root has none.
pub open spec fn parent_of(p: Seq<u8>) -> Option<Seq<u8>>
    decreases p.len(),
{
    let cut = last_separator(p);
    if p.len() == 0 || cut >= p.len() {
        None
    } else if cut < 0 {
        Some(seq![])
    } else if is_filler(tail_segment(p)) {
        if cut == 0 {
            None
        } else {
            parent_of(p.subrange(0, cut))
        }
    } else if cut == 0 {
        Some(root_component())
    } else {
        Some(trimmed(p.subrange(0, cut)))
    }
}

pub proof fn lemma_last_separator(p: Seq<u8>)
    ensures
        -1 <= last_separator(p) < p.len(),
        last_separator(p) >= 0 ==> p[last_separator(p)] == SEPARATOR,
        forall|i: int| last_separator(p) < i < p.len() ==> p[i] != SEPARATOR,
    decreases p.len(),
{
    if p.len() > 0 && p.last() != SEPARATOR {
        lemma_last_separator(p.drop_last());
        assert forall|i: int| last_separator(p) < i < p.len() implies p[i] != SEPARATOR by {
            if i < p.len() - 1 {
                assert(p.drop_last()[i] == p[i]);
            }
        }
    }
}

/// A position after which no separator follows is the last one.
proof fn lemma_is_last_separator(p: Seq<u8>, cut: int)
    requires
        -1 <= cut < p.len(),
        cut >= 0 ==> p[cut] == SEPARATOR,
        forall|i: int| cut < i < p.len() ==> p[i] != SEPARATOR,
    ensures
        last_separator(p) == cut,
{
    lemma_last_separator(p);
}

/// The components in front of the separator at `cut` (none where `cut` is -1).
pub open spec fn front_components(p: Seq<u8>, cut: int) -> Seq<Seq<u8>> {
    if cut < 0 {
        seq![]
    } else if cut == 0 {
        seq![root_component()]
    } else {
        components(p.subrange(0, cut))
    }
}

/// How one more segment, from `start` to `end`, changes the components.
proof fn lemma_segment_closed(p: Seq<u8>, start: int, end: int)
    requires
        0 <= start <= end <= p.len(),
        start > 0 ==> p[start - 1] == SEPARATOR,
        forall|i: int| start <= i < end ==> p[i] != SEPARATOR,
    ensures
        components(p.subrange(0, end)) == (if end == start || (start > 0 && is_filler(
            p.subrange(start, end),
        )) {
            front_components(p, start - 1)
        } else {
            front_components(p, start - 1).push(p.subrange(start, end))
        }),
{
    let q = p.subrange(0, end);
    if end == 0 {
        assert(q.len() == 0);
    } else {
        lemma_is_last_separator(q, start - 1);
        assert(tail_segment(q) == p.subrange(start, end));
        if start > 0 {
            assert(q.subrange(0, start - 1) == p.subrange(0, start - 1));
        } else {
            assert(q == p.subrange(start, end));
            assert(seq![q] == front_components(p, start - 1).push(q));
        }
    }
}

/// The byte strings of a list, by value.
pub open spec fn byte_strings(list: Seq<Vec<u8>>) -> Seq<Seq<u8>> {
    Seq::new(list.len(), |i: int| list[i]@)
}

/// The bytes from `start` to `end` as a list of their own.
pub fn copy_range(bytes: &[u8], start: usize, end: usize) -> (r: Vec<u8>)
    requires
        start <= end <= bytes@.len(),
    ensures
        r@ == bytes@.subrange(start as int, end as int),
{
    let mut r: Vec<u8> = Vec::new();
    let mut i: usize = start;
    while i < end
        invariant
            start <= i <= end <= bytes@.len(),
            r@ == bytes@.subrange(start as int, i as int),
        decreases end - i,
    {
        r.push(bytes[i]);
        i = i + 1;
    }
    r
}

/// Whether two byte strings are the same.
pub fn same_bytes(a: &[u8], b: &[u8]) -> (r: bool)
    ensures
        r == (a@ == b@),
{
    if a.len() != b.len() {
        return false;
    }
    let mut i: usize = 0;
    while i < a.len()
        invariant
            i <= a@.len(),
            a@.len() == b@.len(),
            forall|j: int| 0 <= j < i ==> a@[j] == b@[j],
        decreases a@.len() - i,
    {
        if a[i] != b[i] {
            return false;
        }
        i = i + 1;
    }
    assert(a@ =~= b@);
    true
}

/// Adds the segment from `start` to `end` to the components in front of it.
fn close_segment(parts: &mut Vec<Vec<u8>>, bytes: &[u8], start: usize, end: usize)
    requires
        start <= end <= bytes@.len(),
        start > 0 ==> bytes@[start - 1] == SEPARATOR,
        forall|i: int| start <= i < end ==> bytes@[i] != SEPARATOR,
        byte_strings(old(parts)@) == front_components(bytes@, start - 1),
    ensures
        byte_strings(final(parts)@) == components(bytes@.subrange(0, end as int)),
{
    let ghost before = parts@;
    let single_dot: bool = end - start == 1 && bytes[start] == DOT;
    proof {
        lemma_segment_closed(bytes@, start as int, end as int);
        if single_dot {
            assert(bytes@.subrange(start as int, end as int) =~= seq![DOT]);
        } else if end > start {
            assert(bytes@.subrange(start as int, end as int)[0] == bytes@[start as int]);
        }
    }
    if start < end && !(start > 0 && single_dot) {
        let segment = copy_range(bytes, start, end);
        parts.push(segment);
        assert(byte_strings(parts@) =~= byte_strings(before).push(segment@));
    }
}

impl Clone for UnixPath {
    fn clone(&self) -> (r: UnixPath)
        ensures
            r@ == self@,
    {
        let n: usize = self.bytes.len();
        UnixPath { bytes: copy_range(self.bytes.as_slice(), 0, n) }
    }
}

impl UnixPath {
    /// The path that `bytes` names.
    pub fn new(bytes: Vec<u8>) -> (r: UnixPath)
        ensures
            r@ == bytes@,
    {
        UnixPath { bytes }
    }

    /// Whether the path starts at the root.
    pub fn is_absolute(&self) -> (r: bool)
        ensures
            r == absolute(self@),
    {
        self.bytes.len() > 0 && self.bytes[0] == SEPARATOR
    }

    /// This path extended by `addition`; an absolute `addition` replaces it.
    pub fn join(&self, addition: &[u8]) -> (r: UnixPath)
        ensures
            r@ == joined(self@, addition@),
    {
        let mut bytes: Vec<u8> = Vec::new();
        if !(addition.len() > 0 && addition[0] == SEPARATOR) {
            let n: usize = self.bytes.len();
            bytes = copy_range(self.bytes.as_slice(), 0, n);
            if n > 0 && self.bytes[n - 1] != SEPARATOR {
                bytes.push(SEPARATOR);
            }
        }
        let ghost base = bytes@;
        let mut i: usize = 0;
        while i < addition.len()
            invariant
                i <= addition@.len(),
                bytes@ == base + addition@.subrange(0, i as int),
            decreases addition@.len() - i,
        {
            bytes.push(addition[i]);
            i = i + 1;
        }
        assert(addition@.subrange(0, i as int) =~= addition@);
        UnixPath { bytes }
    }

    /// The components of the path, first to last.
    pub fn components(&self) -> (r: Vec<Vec<u8>>)
        ensures
            byte_strings(r@) == components(self@),
    {
        let bytes: &[u8] = self.bytes.as_slice();
        let mut parts: Vec<Vec<u8>> = Vec::new();
        let mut start: usize = 0;
        let mut i: usize = 0;
        assert(byte_strings(parts@) =~= seq![]);
        while i < bytes.len()
            invariant
                0 <= start <= i <= bytes@.len(),
                start > 0 ==> bytes@[start - 1] == SEPARATOR,
                forall|j: int| start <= j < i ==> bytes@[j] != SEPARATOR,
                byte_strings(parts@) == front_components(bytes@, start - 1),
            decreases bytes@.len() - i,
        {
            if bytes[i] == SEPARATOR {
                if i == 0 {
                    assert(byte_strings(parts@).len() == parts@.len());
                    parts.push(vec![SEPARATOR]);
                    assert(parts@[0]@ =~= root_component());
                    assert(byte_strings(parts@) =~= seq![root_component()]);
                } else {
                    close_segment(&mut parts, bytes, start, i);
                }
                start = i + 1;
            }
            i = i + 1;
        }
        close_segment(&mut parts, bytes, start, i);
        assert(bytes@.subrange(0, i as int) =~= bytes@);
        parts
    }

    /// Whether two paths have the same components.
    pub fn same_path(&self, other: &UnixPath) -> (r: bool)
        ensures
            r == (components(self@) == components(other@)),
    {
        let a = self.components();
        let b = other.components();
        if a.len() != b.len() {
            assert(byte_strings(a@).len() != byte_strings(b@).len());
            return false;
        }
        let mut i: usize = 0;
        while i < a.len()
            invariant
                i <= a@.len(),
                a@.len() == b@.len(),
                byte_strings(a@) == components(self@),
                byte_strings(b@) == components(other@),
                forall|j: int| 0 <= j < i ==> a@[j]@ == b@[j]@,
            decreases a@.len() - i,
        {
            if !same_bytes(a[i].as_slice(), b[i].as_slice()) {
                assert(byte_strings(a@)[i as int] != byte_strings(b@)[i as int]);
                return false;
            }
            i = i + 1;
        }
        assert(byte_strings(a@) =~= byte_strings(b@));
        true
    }

    /// The path without its last component, if there is one besides the root.
    pub fn parent(&self) -> (r: Option<UnixPath>)
        ensures
            r is Some <==> parent_of(self@) is Some,
            r matches Some(holder) ==> Some(holder@) == parent_of(self@),
    {
        let bytes: &[u8] = self.bytes.as_slice();
        let mut end: usize = bytes.len();
        assert(bytes@.subrange(0, end as int) =~= bytes@);
        while end > 0
            invariant
                end <= bytes@.len(),
                bytes@ == self@,
                parent_of(bytes@.subrange(0, end as int)) == parent_of(bytes@),
            decreases end,
        {
            let ghost p = bytes@.subrange(0, end as int);
            let found = find_last_separator(bytes, end);
            match found {
                None => {
                    let empty: Vec<u8> = Vec::new();
                    assert(empty@ =~= seq![]);
                    return Some(UnixPath { bytes: empty });
                },
                Some(cut) => {
                    let filler: bool = segment_is_filler(bytes, cut + 1, end);
                    assert(tail_segment(p) =~= bytes@.subrange(cut + 1, end as int));
                    assert(p.subrange(0, cut as int) =~= bytes@.subrange(0, cut as int));
                    if !filler {
                        if cut == 0 {
                            let root: Vec<u8> = vec![SEPARATOR];
                            assert(root@ =~= root_component());
                            return Some(UnixPath { bytes: root });
                        }
                        return Some(UnixPath { bytes: trim_front(bytes, cut) });
                    }
                    if cut == 0 {
                        return None;
                    }
                    end = cut;
                },
            }
        }
        None
    }
}

/// The last separator among the first `end` bytes.
fn find_last_separator(bytes: &[u8], end: usize) -> (r: Option<usize>)
    requires
        end <= bytes@.len(),
    ensures
        r is None <==> last_separator(bytes@.subrange(0, end as int)) < 0,
        r matches Some(cut) ==> cut < end && last_separator(bytes@.subrange(0, end as int)) == cut,
{
    let mut i: usize = end;
    let ghost p = bytes@.subrange(0, end as int);
    while i > 0
        invariant
            i <= end <= bytes@.len(),
            p == bytes@.subrange(0, end as int),
            forall|j: int| i <= j < end ==> bytes@[j] != SEPARATOR,
        decreases i,
    {
        if bytes[i - 1] == SEPARATOR {
            proof {
                lemma_is_last_separator(p, i - 1);
            }
            return Some(i - 1);
        }
        i = i - 1;
    }
    proof {
        lemma_is_last_separator(p, -1);
    }
    None
}

/// Whether the segment from `start` to `end` is empty or a single dot.
fn segment_is_filler(bytes: &[u8], start: usize, end: usize) -> (r: bool)
    requires
        start <= end <= bytes@.len(),
    ensures
        r == is_filler(bytes@.subrange(start as int, end as int)),
{
    let ghost segment = bytes@.subrange(start as int, end as int);
    if start == end {
        return true;
    }
    assert(segment[0] == bytes@[start as int]);
    if end - start == 1 && bytes[start] == DOT {
        assert(segment =~= seq![DOT]);
        true
    } else {
        assert(segment != seq![DOT]) by {
            assert(seq![DOT].len() == 1 && seq![DOT][0] == DOT);
        }
        false
    }
}

/// The first `end` bytes without trailing separators and filler segments.
fn trim_front(bytes: &[u8], end: usize) -> (r: Vec<u8>)
    requires
        end <= bytes@.len(),
    ensures
        r@ == trimmed(bytes@.subrange(0, end as int)),
{
    let mut rest: usize = end;
    let ghost whole = bytes@.subrange(0, end as int);
    loop
        invariant
            rest <= end <= bytes@.len(),
            whole == bytes@.subrange(0, end as int),
            trimmed(bytes@.subrange(0, rest as int)) == trimmed(whole),
        decreases rest,
    {
        let ghost p = bytes@.subrange(0, rest as int);
        match find_last_separator(bytes, rest) {
            None => {
                return copy_range(bytes, 0, rest);
            },
            Some(cut) => {
                assert(tail_segment(p) =~= bytes@.subrange(cut + 1, rest as int));
                assert(p.subrange(0, cut as int) =~= bytes@.subrange(0, cut as int));
                if !segment_is_filler(bytes, cut + 1, rest) {
                    return copy_range(bytes, 0, rest);
                }
                if cut == 0 {
                    let root: Vec<u8> = vec![SEPARATOR];
                    assert(root@ =~= root_component());
                    return root;
                }
                rest = cut;
            },
        }
    }
}

/// Trimming a path leaves its components as they are.
pub proof fn trimming_keeps_components(p: Seq<u8>)
    ensures
        components(trimmed(p)) == components(p),
    decreases p.len(),
{
    lemma_last_separator(p);
    let cut = last_separator(p);
    if cut >= 0 && is_filler(tail_segment(p)) {
        if cut == 0 {
            lemma_is_last_separator(root_component(), 0);
            assert(tail_segment(root_component()) =~= seq![]);
        } else {
            trimming_keeps_components(p.subrange(0, cut));
        }
    }
}

/// A path has a parent exactly when it has a component besides the root, and the
/// parent's components are its own without the last.
pub proof fn parent_drops_last_component(p: Seq<u8>)
    ensures
        parent_of(p) is None <==> components(p) == Seq::<Seq<u8>>::empty() || components(p)
            == seq![root_component()],
        parent_of(p) matches Some(q) ==> components(q) == components(p).drop_last(),
    decreases p.len(),
{
    lemma_last_separator(p);
    let cut = last_separator(p);
    if p.len() == 0 {
    } else if cut < 0 {
        assert(components(p) == seq![p]);
        assert(seq![p].drop_last() =~= seq![]);
        if seq![p] == seq![root_component()] {
            assert(seq![p][0] == root_component());
            assert(p[0] == SEPARATOR);
        }
    } else if is_filler(tail_segment(p)) {
        if cut > 0 {
            parent_drops_last_component(p.subrange(0, cut));
        }
    } else {
        let front = front_components(p, cut);
        let tail = tail_segment(p);
        assert(components(p) == front.push(tail));
        assert(front.push(tail).drop_last() =~= front);
        assert(front.push(tail).last() == tail);
        assert(tail[0] == p[cut + 1]);
        assert(tail != root_component()) by {
            if tail == root_component() {
                assert(tail[0] == SEPARATOR);
            }
        }
        assert(components(p) != seq![root_component()]) by {
            if components(p) == seq![root_component()] {
                assert(components(p).last() == root_component());
            }
        }
        if cut == 0 {
            lemma_is_last_separator(root_component(), 0);
            assert(tail_segment(root_component()) =~= seq![]);
        } else {
            trimming_keeps_components(p.subrange(0, cut));
        }
    }
}

/// Whether `name` is one ordinary segment.
pub open spec fn is_name(name: Seq<u8>) -> bool {
    !is_filler(name) && !name.contains(SEPARATOR)
}

/// Every component behind the first is an ordinary segment.
pub proof fn components_behind_first_are_names(p: Seq<u8>, i: int)
    requires
        0 < i < components(p).len(),
    ensures
        is_name(components(p)[i]),
    decreases p.len(),
{
    lemma_last_separator(p);
    let cut = last_separator(p);
    let front = front_components(p, cut);
    let tail = tail_segment(p);
    if i < front.len() {
        assert(components(p)[i] == front[i]);
        components_behind_first_are_names(p.subrange(0, cut), i);
    } else {
        assert(components(p)[i] == tail);
        assert(!tail.contains(SEPARATOR)) by {
            if tail.contains(SEPARATOR) {
                let j = choose|j: int| 0 <= j < tail.len() && tail[j] == SEPARATOR;
                assert(tail[j] == p[cut + 1 + j]);
            }
        }
    }
}

/// A name joined to a path is its last component, behind the path's own.
pub proof fn joined_name_is_last_component(base: Seq<u8>, name: Seq<u8>)
    requires
        is_name(name),
    ensures
        components(joined(base, name)) == components(base).push(name),
{
    assert(forall|i: int| 0 <= i < name.len() ==> name[i] != SEPARATOR) by {
        assert forall|i: int| 0 <= i < name.len() implies name[i] != SEPARATOR by {
            assert(name.contains(name[i]));
        }
    }
    let whole = joined(base, name);
    if base.len() == 0 {
        assert(whole =~= name);
        lemma_is_last_separator(whole, -1);
        assert(seq![whole] =~= components(base).push(name));
    } else {
        let cut = whole.len() - name.len() - 1;
        assert(whole[cut] == SEPARATOR);
        lemma_is_last_separator(whole, cut);
        assert(tail_segment(whole) =~= name);
        if base.last() == SEPARATOR {
            lemma_is_last_separator(base, base.len() - 1);
            assert(tail_segment(base).len() == 0);
            assert(whole.subrange(0, cut) =~= base.subrange(0, base.len() - 1));
        } else {
            assert(whole.subrange(0, cut) =~= base);
        }
    }
}

/// A path without a separator is one component, and the empty path has none.
pub proof fn plain_path_is_one_component(p: Seq<u8>)
    requires
        forall|i: int| 0 <= i < p.len() ==> p[i] != 47,
    ensures
        components(p) == (if p.len() == 0 {
            Seq::<Seq<u8>>::empty()
        } else {
            seq![p]
        }),
{
    lemma_last_separator(p);
    assert(components(p) =~= (if p.len() == 0 {
        Seq::<Seq<u8>>::empty()
    } else {
        seq![p]
    }));
}

/// One more segment behind a separator adds itself as a component, unless it is empty
/// or a single dot, and changes nothing of the components in front; a separator in
/// front of everything stands for the root. With the components of paths without a
/// separator, this tells those of every path.
pub proof fn segment_adds_a_component(p: Seq<u8>, segment: Seq<u8>)
    requires
        forall|i: int| 0 <= i < segment.len() ==> segment[i] != 47,
    ensures
        components(p.push(47) + segment) == (if p.len() == 0 {
            seq![seq![47u8]]
        } else {
            components(p)
        }) + (if segment.len() == 0 || (segment.len() == 1 && segment[0] == 46) {
            Seq::<Seq<u8>>::empty()
        } else {
            seq![segment]
        }),
{
    let whole = p.push(47) + segment;
    let start = (p.len() + 1) as int;
    let end = whole.len() as int;
    assert(whole[p.len() as int] == 47);
    assert forall|i: int| start <= i < end implies whole[i] != SEPARATOR by {
        assert(whole[i] == segment[i - start]);
    }
    lemma_segment_closed(whole, start, end);
    assert(whole.subrange(0, end) =~= whole);
    assert(whole.subrange(start, end) =~= segment);
    assert(whole.subrange(0, p.len() as int) =~= p);
    if segment.len() == 1 {
        assert(segment[0] == 46 <==> segment == seq![46u8]) by {
            if segment[0] == 46 {
                assert(segment =~= seq![46u8]);
            } else if segment == seq![46u8] {
                assert(seq![46u8][0] == 46);
            }
        }
    } else {
        assert(segment != seq![46u8]) by {
            assert(seq![46u8].len() == 1);
        }
    }
    assert(components(whole) =~= (if p.len() == 0 {
        seq![seq![47u8]]
    } else {
        components(p)
    }) + (if segment.len() == 0 || (segment.len() == 1 && segment[0] == 46) {
        Seq::<Seq<u8>>::empty()
    } else {
        seq![segment]
    }));
}

/// A path starts at the root exactly where its first byte is a separator, and then the
/// root is its first component.
pub proof fn absolute_path_begins_with_the_root(p: Seq<u8>)
    ensures
        absolute(p) <==> p.len() > 0 && p[0] == 47,
        absolute(p) <==> components(p).len() > 0 && components(p)[0] == seq![47u8],
    decreases p.len(),
{
    lemma_last_separator(p);
    let cut = last_separator(p);
    if p.len() > 0 && cut < 0 {
        assert(components(p) == seq![p]);
        if p == seq![47u8] {
            assert(p[0] == 47);
        }
    } else if cut == 0 {
        assert(components(p)[0] == root_component());
    } else if cut > 0 {
        let front = p.subrange(0, cut);
        absolute_path_begins_with_the_root(front);
        lemma_has_component(front);
        assert(components(p)[0] == components(front)[0]);
    }
}

/// A path that is not empty has a component.
proof fn lemma_has_component(p: Seq<u8>)
    requires
        p.len() > 0,
    ensures
        components(p).len() > 0,
    decreases p.len(),
{
    lemma_last_separator(p);
    let cut = last_separator(p);
    if cut > 0 {
        lemma_has_component(p.subrange(0, cut));
    }
}

/// Joining keeps both paths byte for byte, with one separator between them where the
/// first does not end in one; an absolute addition stands alone.
pub proof fn joining_keeps_both_paths(base: Seq<u8>, addition: Seq<u8>)
    ensures
        ({
            let whole = joined(base, addition);
            let behind = whole.len() - addition.len();
            &&& whole.subrange(behind, whole.len() as int) == addition
            &&& if addition.len() > 0 && addition[0] == 47 {
                behind == 0
            } else if base.len() == 0 || base[base.len() - 1] == 47 {
                whole.subrange(0, behind) == base
            } else {
                whole.subrange(0, behind) == base + seq![47u8]
            }
        }),
{
    let whole = joined(base, addition);
    let behind = whole.len() - addition.len();
    assert(whole.subrange(behind, whole.len() as int) =~= addition);
    if !(addition.len() > 0 && addition[0] == 47) {
        if base.len() == 0 || base[base.len() - 1] == 47 {
            assert(whole.subrange(0, behind) =~= base);
        } else {
            assert(whole.subrange(0, behind) =~= base + seq![47u8]);
        }
    }
}

/// Whether a path ends in a separator, or in a single dot behind one.
spec fn ends_in_filler(p: Seq<u8>) -> bool {
    p[p.len() - 1] == 47 || (p.len() > 1 && p[p.len() - 1] == 46 && p[p.len() - 2] == 47)
}

proof fn lemma_trimmed(p: Seq<u8>)
    ensures
        trimmed(p).is_prefix_of(p),
        trimmed(p).len() > 1 ==> !ends_in_filler(trimmed(p)),
    decreases p.len(),
{
    lemma_last_separator(p);
    let cut = last_separator(p);
    let tail = tail_segment(p);
    if cut >= 0 && is_filler(tail) {
        if cut == 0 {
            assert(p.subrange(0, 1) =~= root_component());
        } else {
            let front = p.subrange(0, cut);
            lemma_trimmed(front);
            assert(trimmed(p) == trimmed(front));
            let kept = trimmed(p);
            assert(front.subrange(0, kept.len() as int) == kept);
            assert(p.subrange(0, kept.len() as int) =~= front.subrange(0, kept.len() as int));
        }
    } else {
        assert(p.subrange(0, p.len() as int) =~= p);
        if p.len() > 1 && ends_in_filler(p) {
            if p[p.len() - 1] == 47 {
                assert(tail.len() == 0);
            } else {
                assert(cut == p.len() - 2);
                assert(tail =~= seq![DOT]);
            }
        }
    }
}

/// A path has a parent exactly where it has a component besides the root. The parent
/// is a first part of the path, byte for byte, with all components but the last, and
/// ends in no separator and no single dot, unless it is the root or a single byte.
pub proof fn parent_is_the_front_of_the_path(p: Seq<u8>)
    ensures
        parent_of(p) is Some <==> components(p).len() > 0 && components(p) != seq![seq![47u8]],
        parent_of(p) matches Some(q) ==> {
            &&& q.is_prefix_of(p)
            &&& components(q) == components(p).drop_last()
            &&& q.len() > 1 ==> q[q.len() - 1] != 47
            &&& q.len() > 1 && q[q.len() - 1] == 46 ==> q[q.len() - 2] != 47
        },
    decreases p.len(),
{
    parent_drops_last_component(p);
    lemma_last_separator(p);
    let cut = last_separator(p);
    if p.len() == 0 {
    } else if cut < 0 {
        assert(p.subrange(0, 0) =~= seq![]);
    } else {
        let front = p.subrange(0, cut);
        if is_filler(tail_segment(p)) {
            if cut > 0 {
                parent_is_the_front_of_the_path(front);
                if let Some(q) = parent_of(front) {
                    assert(front.subrange(0, q.len() as int) == q);
                    assert(p.subrange(0, q.len() as int) =~= front.subrange(0, q.len() as int));
                }
            }
        } else if cut == 0 {
            assert(p.subrange(0, 1) =~= root_component());
        } else {
            lemma_trimmed(front);
            let q = trimmed(front);
            assert(front.subrange(0, q.len() as int) == q);
            assert(p.subrange(0, q.len() as int) =~= front.subrange(0, q.len() as int));
        }
    }
    if components(p).len() == 0 {
        assert(components(p) =~= Seq::<Seq<u8>>::empty());
    }
}

/// A name is a segment that is not empty, no single dot, and without a separator.
pub proof fn names_are_plain_segments(name: Seq<u8>, i: int)
    ensures
        is_name(name) && 0 <= i < name.len() ==> name[i] != 47,
        is_name(name) ==> name.len() > 0 && !(name.len() == 1 && name[0] == 46),
        !is_name(name) && name.len() > 0 && !(name.len() == 1 && name[0] == 46) ==> exists|k: int|
            0 <= k < name.len() && name[k] == 47,
{
    if is_name(name) {
        if 0 <= i < name.len() {
            assert(name.contains(name[i]));
        }
        if name.len() == 1 && name[0] == 46 {
            assert(name =~= seq![DOT]);
        }
    } else if name.len() > 0 && !(name.len() == 1 && name[0] == 46) {
        assert(name != seq![DOT]) by {
            assert(seq![DOT].len() == 1 && seq![DOT][0] == 46);
        }
        assert(name.contains(SEPARATOR));
    }
}

/// A path is its bytes, and a list of byte strings is what each of them holds.
pub proof fn paths_are_their_bytes(path: UnixPath, list: Seq<Vec<u8>>, i: int)
    ensures
        path@ == path.bytes@,
        byte_strings(list).len() == list.len(),
        0 <= i < list.len() ==> byte_strings(list)[i] == list[i]@,
{
}

} // verus!
