//! Shape specifications: which input tensors a run feeds, and with which
//! dimensions.
//!
//! A shape specification is written `entry (";" entry)*`, an entry is
//! `name ":" dim ("," dim)*`, and a dimension is a decimal literal of at
//! least one.

use crate::grammar::{
    chars_of, dimension_of, find, first_index, lemma_first_index, parse_dimension, split,
};
use vstd::prelude::*;
use vstd::string::StrSliceExecFns;

verus! {

/// Why a text is not a shape specification.
#[derive(Clone, Copy, Debug, PartialEq, Eq, Structural)]
pub enum ShapeParseError {
    /// An entry holds no `:` between its name and its dimensions.
    MissingSeparator,
    /// A dimension is not a decimal literal, is zero, or does not fit the
    /// machine word.
    InvalidDimension,
    /// A name occurs in two entries.
    DuplicateName,
    /// The text is empty, or an entry has an empty name.
    Empty,
}

/// One input tensor as a shape specification describes it.
pub struct ShapeEntryView {
    pub name: Seq<char>,
    pub dims: Seq<usize>,
}

/// One input tensor: its name and its dimensions in order.
#[derive(Clone, Debug)]
pub struct ShapeEntry {
    pub name: String,
    pub dims: Vec<usize>,
}

impl View for ShapeEntry {
    type V = ShapeEntryView;

    open spec fn view(&self) -> ShapeEntryView {
        ShapeEntryView { name: self.name@, dims: self.dims@ }
    }
}

/// The views of a sequence of entries.
pub open spec fn entry_views(entries: Seq<ShapeEntry>) -> Seq<ShapeEntryView> {
    Seq::new(entries.len(), |i: int| entries[i]@)
}

/// Whether an entry of the given name is among `entries`.
pub open spec fn has_name(entries: Seq<ShapeEntryView>, name: Seq<char>) -> bool {
    exists|i: int| 0 <= i < entries.len() && #[trigger] entries[i].name == name
}

/// What makes a sequence of entries a shape specification: there is at least
/// one entry, every name is non-empty and occurs once, and every entry has at
/// least one dimension, each of them at least one.
pub open spec fn is_shape_spec(entries: Seq<ShapeEntryView>) -> bool {
    &&& entries.len() >= 1
    &&& forall|i: int| 0 <= i < entries.len() ==> (#[trigger] entries[i]).name.len() >= 1
    &&& forall|i: int, j: int|
        0 <= i < j < entries.len() ==> (#[trigger] entries[i]).name != (#[trigger] entries[j]).name
    &&& forall|i: int| 0 <= i < entries.len() ==> (#[trigger] entries[i]).dims.len() >= 1
    &&& forall|i: int, k: int|
        0 <= i < entries.len() && 0 <= k < entries[i].dims.len() ==> #[trigger] entries[i].dims[k]
            >= 1
}

/// The mapping from names to dimensions that a sequence of entries stands
/// for.
pub open spec fn as_map(entries: Seq<ShapeEntryView>) -> Map<Seq<char>, Seq<usize>> {
    Map::new(
        |name: Seq<char>| has_name(entries, name),
        |name: Seq<char>|
            entries[choose|i: int| 0 <= i < entries.len() && #[trigger] entries[i].name == name].dims,
    )
}

/// The dimensions that a text after the `:` of an entry lists, or none when
/// one of its tokens is no dimension.
pub open spec fn dimensions_of(text: Seq<char>) -> Option<Seq<usize>> {
    let tokens = split(text, ',');
    if forall|k: int| 0 <= k < tokens.len() ==> (#[trigger] dimension_of(tokens[k])) is Some {
        Some(Seq::new(tokens.len(), |k: int| dimension_of(tokens[k])->Some_0))
    } else {
        None
    }
}

/// The entry that a text between two `;` denotes.
pub open spec fn entry_of(text: Seq<char>) -> Result<ShapeEntryView, ShapeParseError> {
    let colon = first_index(text, ':');
    if colon >= text.len() {
        Err(ShapeParseError::MissingSeparator)
    } else if colon == 0 {
        Err(ShapeParseError::Empty)
    } else {
        match dimensions_of(text.skip(colon + 1)) {
            Some(dims) => Ok(ShapeEntryView { name: text.take(colon), dims }),
            None => Err(ShapeParseError::InvalidDimension),
        }
    }
}

/// The entries that a sequence of entry texts denotes, taken from left to
/// right; the first text that fails decides the error.
pub open spec fn entries_of(texts: Seq<Seq<char>>) -> Result<
    Seq<ShapeEntryView>,
    ShapeParseError,
>
    decreases texts.len(),
{
    if texts.len() == 0 {
        Ok(Seq::empty())
    } else {
        match entries_of(texts.drop_last()) {
            Err(e) => Err(e),
            Ok(before) => match entry_of(texts.last()) {
                Err(e) => Err(e),
                Ok(entry) => if has_name(before, entry.name) {
                    Err(ShapeParseError::DuplicateName)
                } else {
                    Ok(before.push(entry))
                },
            },
        }
    }
}

/// The shape specification that a text denotes.
pub open spec fn parsed(text: Seq<char>) -> Result<Seq<ShapeEntryView>, ShapeParseError> {
    if text.len() == 0 {
        Err(ShapeParseError::Empty)
    } else {
        entries_of(split(text, ';'))
    }
}

/// An error among the first texts is the error of the whole sequence.
pub proof fn lemma_entries_of_prefix_error(texts: Seq<Seq<char>>, k: int)
    requires
        0 <= k <= texts.len(),
        entries_of(texts.take(k)) is Err,
    ensures
        entries_of(texts) == entries_of(texts.take(k)),
    decreases texts.len() - k,
{
    if k == texts.len() {
        assert(texts.take(k) =~= texts);
    } else {
        assert(texts.take(k + 1).drop_last() =~= texts.take(k));
        lemma_entries_of_prefix_error(texts, k + 1);
    }
}

/// Entries come out one for each text, and they meet every condition of a
/// shape specification but that there is at least one.
pub proof fn lemma_entries_of_valid(texts: Seq<Seq<char>>)
    requires
        entries_of(texts) is Ok,
    ensures
        entries_of(texts)->Ok_0.len() == texts.len(),
        texts.len() >= 1 ==> is_shape_spec(entries_of(texts)->Ok_0),
    decreases texts.len(),
{
    if texts.len() > 0 {
        let before = entries_of(texts.drop_last())->Ok_0;
        let text = texts.last();
        let entry = entry_of(text)->Ok_0;
        let all = entries_of(texts)->Ok_0;
        lemma_entries_of_valid(texts.drop_last());
        lemma_first_index(text, ':');
        assert(all == before.push(entry));
        let tokens = split(text.skip(first_index(text, ':') + 1), ',');
        assert(entry.dims.len() == tokens.len());
        assert forall|k: int| 0 <= k < entry.dims.len() implies #[trigger] entry.dims[k] >= 1 by {
            assert(dimension_of(tokens[k]) is Some);
        }
        assert forall|i: int| 0 <= i < all.len() implies (#[trigger] all[i]).name.len() >= 1 && all[i].dims.len()
            >= 1 by {
            if i < before.len() {
                assert(all[i] == before[i]);
            }
        }
        assert forall|i: int, j: int| 0 <= i < j < all.len() implies (#[trigger] all[i]).name != (
        #[trigger] all[j]).name by {
            assert(all[i] == before[i]);
            if j < before.len() {
                assert(all[j] == before[j]);
            } else {
                assert(!has_name(before, entry.name));
            }
        }
        assert forall|i: int, k: int|
            0 <= i < all.len() && 0 <= k < all[i].dims.len() implies #[trigger] all[i].dims[k]
            >= 1 by {
            if i < before.len() {
                assert(all[i] == before[i]);
            }
        }
    }
}

/// What a text denotes, when it denotes anything, is a shape specification.
pub proof fn lemma_parsed_is_shape_spec(text: Seq<char>)
    requires
        parsed(text) is Ok,
    ensures
        is_shape_spec(parsed(text)->Ok_0),
{
    lemma_entries_of_valid(split(text, ';'));
}

/// In a shape specification each name stands for the dimensions of the one
/// entry that bears it.
pub proof fn lemma_as_map(entries: Seq<ShapeEntryView>, i: int)
    requires
        is_shape_spec(entries),
        0 <= i < entries.len(),
    ensures
        as_map(entries).dom().contains(entries[i].name),
        as_map(entries)[entries[i].name] == entries[i].dims,
{
    let name = entries[i].name;
    let j = choose|j: int| 0 <= j < entries.len() && #[trigger] entries[j].name == name;
    assert(i == j) by {
        if i < j {
            assert(entries[i].name != entries[j].name);
        } else if j < i {
            assert(entries[j].name != entries[i].name);
        }
    }
}

/// The number of elements of a tensor with the given dimensions: their
/// product.
pub open spec fn volume(dims: Seq<usize>) -> nat
    decreases dims.len(),
{
    if dims.len() == 0 {
        1
    } else {
        volume(dims.drop_last()) * (dims.last() as nat)
    }
}

/// A tensor with a dimension of zero has no elements.
pub proof fn lemma_volume_zero(dims: Seq<usize>, i: int)
    requires
        0 <= i < dims.len(),
        dims[i] == 0,
    ensures
        volume(dims) == 0,
    decreases dims.len(),
{
    if i < dims.len() - 1 {
        lemma_volume_zero(dims.drop_last(), i);
        assert(0 * (dims.last() as nat) == 0) by (nonlinear_arith);
    } else {
        assert(volume(dims.drop_last()) * 0 == 0) by (nonlinear_arith);
    }
}

/// Where no dimension is zero, the first dimensions alone span no more
/// elements than all of them.
pub proof fn lemma_volume_prefix(dims: Seq<usize>, k: int)
    requires
        0 <= k <= dims.len(),
        forall|i: int| 0 <= i < dims.len() ==> dims[i] >= 1,
    ensures
        1 <= volume(dims.take(k)) <= volume(dims),
    decreases dims.len() - k,
{
    if k == dims.len() {
        assert(dims.take(k) =~= dims);
        lemma_volume_positive(dims);
    } else {
        lemma_volume_prefix(dims, k + 1);
        lemma_volume_positive(dims.take(k));
        assert(dims.take(k + 1).drop_last() =~= dims.take(k));
        let v = volume(dims.take(k));
        let d = dims[k] as nat;
        assert(dims.take(k + 1).last() == dims[k]);
        assert(v <= v * d) by (nonlinear_arith)
            requires
                d >= 1,
        ;
    }
}

/// Where no dimension is zero, there is at least one element.
pub proof fn lemma_volume_positive(dims: Seq<usize>)
    requires
        forall|i: int| 0 <= i < dims.len() ==> dims[i] >= 1,
    ensures
        volume(dims) >= 1,
    decreases dims.len(),
{
    if dims.len() > 0 {
        lemma_volume_positive(dims.drop_last());
        let v = volume(dims.drop_last());
        let d = dims.last() as nat;
        assert(v * d >= 1) by (nonlinear_arith)
            requires
                v >= 1,
                d >= 1,
        ;
    }
}

impl ShapeEntry {
    /// The size in bytes of the tensor when each element takes
    /// `element_size` bytes, or none when that size is more than
    /// `isize::MAX`, the most that can be allocated at once.
    pub fn byte_size(&self, element_size: usize) -> (size: Option<usize>)
        ensures
            size == if volume(self.dims@) * element_size <= isize::MAX {
                Some((volume(self.dims@) * element_size) as usize)
            } else {
                None
            },
    {
        let limit: usize = isize::MAX as usize;
        if element_size == 0 {
            assert(volume(self.dims@) * 0 == 0) by (nonlinear_arith);
            return Some(0);
        }
        match self.element_count() {
            None => {
                assert(volume(self.dims@) * element_size >= volume(self.dims@)) by (nonlinear_arith)
                    requires
                        element_size >= 1,
                ;
                None
            },
            Some(count) => match count.checked_mul(element_size) {
                Some(size) => if size <= limit {
                    Some(size)
                } else {
                    None
                },
                None => None,
            },
        }
    }

    /// The number of elements of the tensor, or none when that number does
    /// not fit the machine word.
    pub fn element_count(&self) -> (count: Option<usize>)
        ensures
            count == if volume(self.dims@) <= usize::MAX {
                Some(volume(self.dims@) as usize)
            } else {
                None
            },
    {
        let n: usize = self.dims.len();
        let mut z: usize = 0;
        while z < n
            invariant
                z <= n == self.dims.len(),
                forall|i: int| 0 <= i < z ==> self.dims@[i] >= 1,
            decreases n - z,
        {
            if self.dims[z] == 0 {
                proof {
                    lemma_volume_zero(self.dims@, z as int);
                }
                return Some(0);
            }
            z = z + 1;
        }
        let mut count: usize = 1;
        let mut k: usize = 0;
        while k < n
            invariant
                k <= n == self.dims.len(),
                forall|i: int| 0 <= i < n ==> self.dims@[i] >= 1,
                count == volume(self.dims@.take(k as int)),
            decreases n - k,
        {
            proof {
                assert(self.dims@.take(k + 1).drop_last() =~= self.dims@.take(k as int));
                assert(self.dims@.take(k + 1).last() == self.dims@[k as int]);
                lemma_volume_prefix(self.dims@, k + 1);
            }
            count =
            match count.checked_mul(self.dims[k]) {
                Some(product) => product,
                None => {
                    return None;
                },
            };
            k = k + 1;
        }
        assert(self.dims@.take(n as int) =~= self.dims@);
        Some(count)
    }
}

/// A shape specification: the input tensors of a run by name, each with its
/// dimensions, in the order in which they were written.
#[derive(Debug)]
pub struct ShapeSpec {
    entries: Vec<ShapeEntry>,
}

impl View for ShapeSpec {
    type V = Seq<ShapeEntryView>;

    closed spec fn view(&self) -> Seq<ShapeEntryView> {
        entry_views(self.entries@)
    }
}

impl ShapeSpec {
    /// What holds of every shape specification.
    #[verifier::type_invariant]
    pub open spec fn valid(self) -> bool {
        is_shape_spec(self@)
    }

    /// The number of entries, which is at least one.
    pub fn len(&self) -> (n: usize)
        ensures
            n == self@.len(),
            n >= 1,
            is_shape_spec(self@),
    {
        proof {
            use_type_invariant(self);
        }
        self.entries.len()
    }

    /// The entries in the order in which they were written.
    pub fn entries(&self) -> (entries: &Vec<ShapeEntry>)
        ensures
            entry_views(entries@) == self@,
            is_shape_spec(self@),
    {
        proof {
            use_type_invariant(self);
        }
        &self.entries
    }

    /// The dimensions of the entry called `name`, if there is one.
    pub fn get(&self, name: &str) -> (dims: Option<&Vec<usize>>)
        ensures
            is_shape_spec(self@),
            dims is Some <==> as_map(self@).dom().contains(name@),
            dims matches Some(d) ==> d@ == as_map(self@)[name@],
    {
        proof {
            use_type_invariant(self);
        }
        let key: String = name.to_owned();
        let mut i: usize = 0;
        while i < self.entries.len()
            invariant
                i <= self.entries.len(),
                key@ == name@,
                is_shape_spec(entry_views(self.entries@)),
                forall|j: int| 0 <= j < i ==> (#[trigger] self.entries@[j]).name@ != name@,
            decreases self.entries.len() - i,
        {
            if self.entries[i].name == key {
                proof {
                    assert(entry_views(self.entries@)[i as int].name == name@);
                    lemma_as_map(entry_views(self.entries@), i as int);
                }
                return Some(&self.entries[i].dims);
            }
            i = i + 1;
        }
        proof {
            let views = entry_views(self.entries@);
            if has_name(views, name@) {
                let j = choose|j: int| 0 <= j < views.len() && #[trigger] views[j].name == name@;
                assert(self.entries@[j].name@ != name@);
            }
        }
        None
    }
}

/// Whether an entry called `name` is among `entries`.
fn holds_name(entries: &Vec<ShapeEntry>, name: &String) -> (found: bool)
    ensures
        found == has_name(entry_views(entries@), name@),
{
    let mut i: usize = 0;
    while i < entries.len()
        invariant
            i <= entries.len(),
            forall|j: int| 0 <= j < i ==> (#[trigger] entries@[j]).name@ != name@,
        decreases entries.len() - i,
    {
        if entries[i].name == *name {
            assert(entry_views(entries@)[i as int].name == name@);
            return true;
        }
        i = i + 1;
    }
    proof {
        let views = entry_views(entries@);
        if has_name(views, name@) {
            let j = choose|j: int| 0 <= j < views.len() && #[trigger] views[j].name == name@;
            assert(entries@[j].name@ != name@);
        }
    }
    false
}

/// Reads the dimensions listed between `from` and `to`.
fn parse_dimensions(chars: &Vec<char>, from: usize, to: usize) -> (dims: Option<Vec<usize>>)
    requires
        from <= to <= chars.len(),
    ensures
        dims is Some <==> dimensions_of(chars@.subrange(from as int, to as int)) is Some,
        dims matches Some(d) ==> d@ == dimensions_of(chars@.subrange(from as int, to as int))->Some_0,
{
    let ghost text = chars@.subrange(from as int, to as int);
    let ghost mut seen: Seq<Seq<char>> = Seq::empty();
    let mut dims: Vec<usize> = Vec::new();
    let mut start: usize = from;
    proof {
        assert(seen + split(text, ',') =~= split(text, ','));
    }
    loop
        invariant
            from <= start <= to <= chars.len(),
            text == chars@.subrange(from as int, to as int),
            split(text, ',') == seen + split(chars@.subrange(start as int, to as int), ','),
            dims@.len() == seen.len(),
            forall|k: int|
                0 <= k < seen.len() ==> #[trigger] dimension_of(seen[k]) == Some(dims@[k]),
        decreases to - start,
    {
        let end: usize = find(chars, start, to, ',');
        let ghost rest = chars@.subrange(start as int, to as int);
        let ghost token = chars@.subrange(start as int, end as int);
        proof {
            assert(rest.take(end - start) =~= token);
            if end < to {
                assert(rest.skip(end - start + 1) =~= chars@.subrange(end + 1, to as int));
                assert(split(rest, ',') == seq![token] + split(
                    chars@.subrange(end + 1, to as int),
                    ',',
                ));
            } else {
                assert(token =~= rest);
                assert(split(rest, ',') == seq![token]);
            }
            assert(split(text, ',')[seen.len() as int] == token);
        }
        match parse_dimension(chars, start, end) {
            None => {
                return None;
            },
            Some(dim) => {
                dims.push(dim);
            },
        }
        proof {
            let tail = if end < to {
                split(chars@.subrange(end + 1, to as int), ',')
            } else {
                Seq::empty()
            };
            assert(split(text, ',') =~= seen.push(token) + tail);
            seen = seen.push(token);
        }
        if end == to {
            proof {
                assert(split(text, ',') =~= seen);
                assert(dims@ =~= dimensions_of(text)->Some_0);
            }
            return Some(dims);
        }
        start = end + 1;
    }
}

/// Reads a shape specification.
///
/// The entries are read from left to right, and the first entry that is not
/// in order decides the error: an entry without `:` is a missing separator,
/// an entry whose name is empty is empty, a dimension that is no decimal
/// literal of at least one is an invalid dimension, and a name that an
/// earlier entry bears is a duplicate name. The empty text is empty.
pub fn parse(input: &str) -> (result: Result<ShapeSpec, ShapeParseError>)
    ensures
        result matches Ok(spec) ==> parsed(input@) == Ok::<_, ShapeParseError>(spec@)
            && is_shape_spec(spec@),
        result matches Err(e) ==> parsed(input@) == Err::<Seq<ShapeEntryView>, _>(e),
{
    let chars: Vec<char> = chars_of(input);
    let len: usize = chars.len();
    if len == 0 {
        return Err(ShapeParseError::Empty);
    }
    let ghost text = chars@;
    let ghost mut seen: Seq<Seq<char>> = Seq::empty();
    let mut entries: Vec<ShapeEntry> = Vec::new();
    let mut start: usize = 0;
    proof {
        assert(chars@.subrange(0, len as int) =~= text);
        assert(seen + split(text, ';') =~= split(text, ';'));
        assert(entry_views(entries@) =~= Seq::empty());
    }
    loop
        invariant
            start <= len == chars.len(),
            text == chars@,
            text == input@,
            len > 0,
            split(text, ';') == seen + split(chars@.subrange(start as int, len as int), ';'),
            entries_of(seen) == Ok::<_, ShapeParseError>(entry_views(entries@)),
        decreases len - start,
    {
        let end: usize = find(&chars, start, len, ';');
        let ghost rest = chars@.subrange(start as int, len as int);
        let ghost piece = chars@.subrange(start as int, end as int);
        let ghost tail = if end < len {
            split(chars@.subrange(end + 1, len as int), ';')
        } else {
            Seq::empty()
        };
        proof {
            assert(rest.take(end - start) =~= piece);
            if end < len {
                assert(rest.skip(end - start + 1) =~= chars@.subrange(end + 1, len as int));
            } else {
                assert(piece =~= rest);
            }
            assert(split(rest, ';') == seq![piece] + tail);
            assert(split(text, ';') =~= seen.push(piece) + tail);
            assert(split(text, ';').take((seen.len() + 1) as int) =~= seen.push(piece));
            assert(seen.push(piece).drop_last() =~= seen);
            lemma_first_index(piece, ':');
        }
        let colon: usize = find(&chars, start, end, ':');
        if colon == end {
            proof {
                lemma_entries_of_prefix_error(split(text, ';'), (seen.len() + 1) as int);
            }
            return Err(ShapeParseError::MissingSeparator);
        }
        if colon == start {
            proof {
                lemma_entries_of_prefix_error(split(text, ';'), (seen.len() + 1) as int);
            }
            return Err(ShapeParseError::Empty);
        }
        proof {
            assert(piece.skip(colon - start + 1) =~= chars@.subrange(colon + 1, end as int));
            assert(piece.take(colon - start) =~= chars@.subrange(start as int, colon as int));
        }
        let dims: Vec<usize> = match parse_dimensions(&chars, colon + 1, end) {
            Some(dims) => dims,
            None => {
                proof {
                    lemma_entries_of_prefix_error(split(text, ';'), (seen.len() + 1) as int);
                }
                return Err(ShapeParseError::InvalidDimension);
            },
        };
        let name: String = input.substring_char(start, colon).to_owned();
        if holds_name(&entries, &name) {
            proof {
                lemma_entries_of_prefix_error(split(text, ';'), (seen.len() + 1) as int);
            }
            return Err(ShapeParseError::DuplicateName);
        }
        let entry = ShapeEntry { name, dims };
        proof {
            assert(entry_of(piece) == Ok::<_, ShapeParseError>(entry@));
            assert(entry_views(entries@.push(entry)) =~= entry_views(entries@).push(entry@));
            seen = seen.push(piece);
        }
        entries.push(entry);
        if end == len {
            proof {
                assert(split(text, ';') =~= seen);
                lemma_entries_of_valid(seen);
            }
            return Ok(ShapeSpec { entries });
        }
        start = end + 1;
    }
}

} // verus!
