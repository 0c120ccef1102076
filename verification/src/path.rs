//! Paths of the file system as byte strings of bounded length without characters that a
//! file system refuses.
//!
//! Every operation that builds or changes a [`Path`] checks the result, so that a `Path`
//! never holds an invalid path. The paths are those of the POSIX platforms: `/` separates
//! their entries, and an absolute path starts with it.

use vstd::prelude::*;

verus! {

/// The byte that separates the entries of a path.
pub const PATH_SEPARATOR: u8 = 0x2f;

/// The greatest number of bytes of a path.
pub const PATH_LENGTH: usize = 255;

/// The greatest number of bytes of a single entry of a path.
pub const FILENAME_LENGTH: usize = 255;

/// Why a path could not be built or changed.
#[derive(Debug, Clone, Copy, PartialEq, Eq, Structural)]
pub enum SemanticStringError {
    /// The result would hold a character that no path may hold.
    InvalidContent,
    /// The result would be longer than [`PATH_LENGTH`].
    ExceedsMaximumLength,
}

/// Whether no path may hold `byte`: the control characters and `< > " | ? *`.
pub open spec fn is_invalid_character(byte: u8) -> bool {
    byte <= 31 || byte == 0x3c || byte == 0x3e || byte == 0x22 || byte == 0x7c || byte == 0x3f
        || byte == 0x2a
}

/// Whether `bytes` holds a character that no path may hold.
pub open spec fn contains_invalid_characters(bytes: Seq<u8>) -> bool {
    exists|i: int| 0 <= i < bytes.len() && is_invalid_character(#[trigger] bytes[i])
}

/// Whether `bytes` is a path: short enough, and without invalid characters.
pub open spec fn is_valid_path(bytes: Seq<u8>) -> bool {
    bytes.len() <= PATH_LENGTH && !contains_invalid_characters(bytes)
}

/// What building a path from `bytes` returns: too many bytes are refused before their
/// content is looked at.
pub open spec fn spec_check(bytes: Seq<u8>) -> Result<(), SemanticStringError> {
    if bytes.len() > PATH_LENGTH {
        Err(SemanticStringError::ExceedsMaximumLength)
    } else if contains_invalid_characters(bytes) {
        Err(SemanticStringError::InvalidContent)
    } else {
        Ok(())
    }
}

/// Whether an absolute path starts like `bytes`: with the separator.
pub open spec fn spec_is_absolute(bytes: Seq<u8>) -> bool {
    bytes.len() > 0 && bytes[0] == PATH_SEPARATOR
}

/// Whether normalizing keeps the byte at `i`: a separator goes where it ends the path or
/// follows another separator.
pub open spec fn is_kept(bytes: Seq<u8>, i: int) -> bool {
    !(bytes[i] == PATH_SEPARATOR && (i + 1 == bytes.len() || (i > 0 && bytes[i - 1]
        == PATH_SEPARATOR)))
}

/// The bytes among the first `n` of `bytes` that normalizing keeps.
pub open spec fn normalized_prefix(bytes: Seq<u8>, n: int) -> Seq<u8>
    decreases n,
{
    if n <= 0 {
        Seq::empty()
    } else if is_kept(bytes, n - 1) {
        normalized_prefix(bytes, n - 1).push(bytes[n - 1])
    } else {
        normalized_prefix(bytes, n - 1)
    }
}

/// The normal form of a path: no separator follows another, and the last byte of the path
/// is dropped where it is a separator.
pub open spec fn normalized(bytes: Seq<u8>) -> Seq<u8> {
    normalized_prefix(bytes, bytes.len() as int)
}

/// The number of bytes before the first separator of `bytes`.
pub open spec fn first_run(bytes: Seq<u8>) -> nat
    decreases bytes.len(),
{
    if bytes.len() == 0 || bytes[0] == PATH_SEPARATOR {
        0
    } else {
        1 + first_run(bytes.drop_first())
    }
}

/// The entries of a path: the longest runs of bytes without a separator, in their order.
pub open spec fn split_entries(bytes: Seq<u8>) -> Seq<Seq<u8>>
    decreases bytes.len(),
    via split_entries_decreases
{
    if bytes.len() == 0 {
        Seq::empty()
    } else if bytes[0] == PATH_SEPARATOR {
        split_entries(bytes.drop_first())
    } else {
        seq![bytes.take(first_run(bytes) as int)] + split_entries(
            bytes.skip(first_run(bytes) as int),
        )
    }
}

#[via_fn]
proof fn split_entries_decreases(bytes: Seq<u8>) {
    lemma_first_run(bytes);
}

/// Whether a path to which an entry is added gets a separator first: where it is not
/// empty and does not end with one.
pub open spec fn needs_separator(bytes: Seq<u8>) -> bool {
    bytes.len() > 0 && bytes.last() != PATH_SEPARATOR
}

/// The first run ends before the end of the bytes, or with them.
pub proof fn lemma_first_run(bytes: Seq<u8>)
    ensures
        first_run(bytes) <= bytes.len(),
        forall|i: int| 0 <= i < first_run(bytes) ==> bytes[i] != PATH_SEPARATOR,
        first_run(bytes) < bytes.len() ==> bytes[first_run(bytes) as int] == PATH_SEPARATOR,
    decreases bytes.len(),
{
    if bytes.len() > 0 && bytes[0] != PATH_SEPARATOR {
        let rest = bytes.drop_first();
        lemma_first_run(rest);
        assert forall|i: int| 0 <= i < first_run(bytes) implies bytes[i] != PATH_SEPARATOR by {
            if i > 0 {
                assert(bytes[i] == rest[i - 1]);
            }
        }
        if first_run(bytes) < bytes.len() {
            assert(bytes[first_run(bytes) as int] == rest[first_run(rest) as int]);
        }
    }
}

/// A run of `n` bytes without a separator that a separator or the end follows is the first
/// run.
pub proof fn lemma_first_run_is(bytes: Seq<u8>, n: int)
    requires
        0 <= n <= bytes.len(),
        forall|i: int| 0 <= i < n ==> bytes[i] != PATH_SEPARATOR,
        n < bytes.len() ==> bytes[n] == PATH_SEPARATOR,
    ensures
        first_run(bytes) == n,
    decreases bytes.len(),
{
    if n > 0 {
        let rest = bytes.drop_first();
        assert forall|i: int| 0 <= i < n - 1 implies rest[i] != PATH_SEPARATOR by {
            assert(rest[i] == bytes[i + 1]);
        }
        lemma_first_run_is(rest, n - 1);
    }
}

/// The entries of bytes that end with a separator, followed by more bytes, are the entries
/// of the one and then those of the other.
pub proof fn lemma_split_entries_concat(head: Seq<u8>, tail: Seq<u8>)
    requires
        head.len() == 0 || head.last() == PATH_SEPARATOR,
    ensures
        split_entries(head + tail) == split_entries(head) + split_entries(tail),
    decreases head.len(),
{
    let all = head + tail;
    if head.len() == 0 {
        assert(all =~= tail);
        assert(split_entries(head) + split_entries(tail) =~= split_entries(tail));
    } else if head[0] == PATH_SEPARATOR {
        let rest = head.drop_first();
        assert(all.drop_first() =~= rest + tail);
        if rest.len() > 0 {
            assert(rest.last() == head.last());
        }
        lemma_split_entries_concat(rest, tail);
    } else {
        let n = first_run(head) as int;
        lemma_first_run(head);
        assert(n < head.len()) by {
            if n == head.len() {
                assert(head[n - 1] != PATH_SEPARATOR);
            }
        }
        assert(n >= 1);
        assert forall|i: int| 0 <= i < n implies all[i] != PATH_SEPARATOR by {
            assert(all[i] == head[i]);
        }
        assert(all[n] == head[n]);
        lemma_first_run_is(all, n);
        let rest = head.skip(n);
        assert(all.take(n) =~= head.take(n));
        assert(all.skip(n) =~= rest + tail);
        assert(rest.last() == head.last());
        lemma_split_entries_concat(rest, tail);
        assert(split_entries(all) =~= split_entries(head) + split_entries(tail));
    }
}

/// Bytes without a separator are one entry, unless there are none.
pub proof fn lemma_split_entries_run(run: Seq<u8>)
    requires
        forall|i: int| 0 <= i < run.len() ==> run[i] != PATH_SEPARATOR,
    ensures
        run.len() == 0 ==> split_entries(run) == Seq::<Seq<u8>>::empty(),
        run.len() > 0 ==> split_entries(run) == seq![run],
        split_entries(run.push(PATH_SEPARATOR)) == split_entries(run),
{
    let closed = run.push(PATH_SEPARATOR);
    let separator = seq![PATH_SEPARATOR];
    assert(separator.drop_first() =~= Seq::<u8>::empty());
    assert(split_entries(separator.drop_first()) =~= Seq::<Seq<u8>>::empty());
    assert(split_entries(separator) =~= Seq::<Seq<u8>>::empty());
    if run.len() > 0 {
        let n = run.len() as int;
        lemma_first_run_is(run, n);
        assert(run.take(n) =~= run);
        assert(run.skip(n) =~= Seq::<u8>::empty());
        assert(split_entries(run.skip(n)) =~= Seq::<Seq<u8>>::empty());
        assert(split_entries(run) =~= seq![run]);
        assert forall|i: int| 0 <= i < n implies closed[i] != PATH_SEPARATOR by {
            assert(closed[i] == run[i]);
        }
        lemma_first_run_is(closed, n);
        assert(closed.take(n) =~= run);
        assert(closed.skip(n) =~= separator);
        assert(split_entries(closed) =~= seq![run]);
    } else {
        assert(closed =~= separator);
    }
}

/// No entry of a path is empty or holds a separator, and every byte of the path that is
/// no separator is in an entry: the entries hold as many bytes as the path has bytes
/// that are no separator.
pub proof fn lemma_split_entries(bytes: Seq<u8>)
    ensures
        forall|k: int|
            0 <= k < split_entries(bytes).len() ==> (#[trigger] split_entries(bytes)[k]).len() > 0,
        forall|k: int, i: int|
            0 <= k < split_entries(bytes).len() && 0 <= i < split_entries(bytes)[k].len()
                ==> #[trigger] split_entries(bytes)[k][i] != PATH_SEPARATOR,
        forall|k: int|
            0 <= k < split_entries(bytes).len() ==> (#[trigger] split_entries(bytes)[k]).len()
                <= bytes.len(),
    decreases bytes.len(),
{
    if bytes.len() == 0 {
        assert(split_entries(bytes) =~= Seq::<Seq<u8>>::empty());
    } else if bytes[0] == PATH_SEPARATOR {
        lemma_split_entries(bytes.drop_first());
        assert(split_entries(bytes) == split_entries(bytes.drop_first()));
    } else {
        let n = first_run(bytes) as int;
        lemma_first_run(bytes);
        let rest = bytes.skip(n);
        lemma_split_entries(rest);
        let all = split_entries(bytes);
        assert(all == seq![bytes.take(n)] + split_entries(rest));
        assert forall|k: int| 0 <= k < all.len() implies (#[trigger] all[k]).len() > 0 && all[k].len()
            <= bytes.len() by {
            if k > 0 {
                assert(all[k] == split_entries(rest)[k - 1]);
            }
        }
        assert forall|k: int, i: int|
            0 <= k < all.len() && 0 <= i < all[k].len() implies #[trigger] all[k][i]
            != PATH_SEPARATOR by {
            if k > 0 {
                assert(all[k] == split_entries(rest)[k - 1]);
            } else {
                assert(all[0][i] == bytes[i]);
            }
        }
    }
}

/// Normalizing takes bytes away and adds none: the normal form of a valid path is a valid
/// path, and no longer.
pub proof fn lemma_normalized_prefix(bytes: Seq<u8>, n: int)
    requires
        0 <= n <= bytes.len(),
    ensures
        normalized_prefix(bytes, n).len() <= n,
        forall|i: int|
            0 <= i < normalized_prefix(bytes, n).len() ==> exists|j: int|
                0 <= j < n && bytes[j] == #[trigger] normalized_prefix(bytes, n)[i],
        !contains_invalid_characters(bytes) ==> !contains_invalid_characters(
            normalized_prefix(bytes, n),
        ),
    decreases n,
{
    if n > 0 {
        lemma_normalized_prefix(bytes, n - 1);
        let before = normalized_prefix(bytes, n - 1);
        let now = normalized_prefix(bytes, n);
        assert forall|i: int| 0 <= i < now.len() implies exists|j: int|
            0 <= j < n && bytes[j] == #[trigger] now[i] by {
            if i < before.len() {
                let j = choose|j: int| 0 <= j < n - 1 && bytes[j] == before[i];
                assert(bytes[j] == now[i]);
            } else {
                assert(bytes[n - 1] == now[i]);
            }
        }
    }
    if !contains_invalid_characters(bytes) {
        let now = normalized_prefix(bytes, n);
        assert forall|i: int| 0 <= i < now.len() implies !is_invalid_character(#[trigger] now[i]) by {
            let j = choose|j: int| 0 <= j < n && bytes[j] == now[i];
            assert(!is_invalid_character(bytes[j]));
        }
    }
}

/// In the normal form of a path no separator follows another.
pub proof fn lemma_normalized_has_no_double_separator(bytes: Seq<u8>, n: int)
    requires
        0 <= n <= bytes.len(),
    ensures
        forall|i: int|
            0 < i < normalized_prefix(bytes, n).len() ==> !(normalized_prefix(bytes, n)[i - 1]
                == PATH_SEPARATOR && #[trigger] normalized_prefix(bytes, n)[i] == PATH_SEPARATOR),
        n > 0 && normalized_prefix(bytes, n).len() > 0 && normalized_prefix(bytes, n).last()
            == PATH_SEPARATOR ==> bytes[n - 1] == PATH_SEPARATOR,
    decreases n,
{
    if n > 0 {
        lemma_normalized_has_no_double_separator(bytes, n - 1);
        let before = normalized_prefix(bytes, n - 1);
        let now = normalized_prefix(bytes, n);
        if is_kept(bytes, n - 1) {
            assert forall|i: int| 0 < i < now.len() implies !(now[i - 1] == PATH_SEPARATOR
                && #[trigger] now[i] == PATH_SEPARATOR) by {
                if i < before.len() {
                    assert(now[i] == before[i] && now[i - 1] == before[i - 1]);
                } else {
                    assert(now[i - 1] == before.last());
                }
            }
        } else {
            assert(bytes[n - 1] == PATH_SEPARATOR);
        }
    }
}

/// Returns `true` if no path may hold `byte`.
pub fn is_invalid_byte(byte: u8) -> (invalid: bool)
    ensures
        invalid == is_invalid_character(byte),
{
    byte <= 31 || byte == 0x3c || byte == 0x3e || byte == 0x22 || byte == 0x7c || byte == 0x3f
        || byte == 0x2a
}

/// Returns `true` if `bytes` holds a character that no path may hold.
pub fn does_contain_invalid_characters(bytes: &[u8]) -> (invalid: bool)
    ensures
        invalid == contains_invalid_characters(bytes@),
{
    let mut i: usize = 0;
    while i < bytes.len()
        invariant
            i <= bytes@.len(),
            forall|j: int| 0 <= j < i ==> !is_invalid_character(#[trigger] bytes@[j]),
        decreases bytes@.len() - i,
    {
        if is_invalid_byte(bytes[i]) {
            return true;
        }
        i += 1;
    }
    false
}

/// A path of the file system: at most [`PATH_LENGTH`] bytes, none of them invalid.
#[derive(Debug, Clone, PartialEq, Eq, Hash)]
pub struct Path {
    value: Vec<u8>,
}

impl View for Path {
    type V = Seq<u8>;

    closed spec fn view(&self) -> Seq<u8> {
        self.value@
    }
}

impl Path {
    /// The bytes are a valid path. Every operation asks for this and keeps it.
    pub open spec fn wf(&self) -> bool {
        is_valid_path(self@)
    }

    /// Creates the path with the given bytes, unless they are too many or one of them is
    /// invalid.
    pub fn new(value: &[u8]) -> (path: Result<Path, SemanticStringError>)
        ensures
            match path {
                Ok(p) => spec_check(value@) is Ok && p@ == value@ && p.wf(),
                Err(e) => spec_check(value@) == Err::<(), SemanticStringError>(e),
            },
    {
        let mut new_self = Path { value: Vec::new() };
        match new_self.push_bytes(value) {
            Ok(()) => {
                assert(new_self@ =~= value@);
                Ok(new_self)
            },
            Err(e) => {
                assert(Seq::<u8>::empty() + value@ =~= value@);
                Err(e)
            },
        }
    }

    /// Creates the empty path.
    pub fn new_empty() -> (path: Path)
        ensures
            path.wf(),
            path@ == Seq::<u8>::empty(),
    {
        Path { value: Vec::new() }
    }

    /// Creates the path of the root of the file system.
    pub fn new_root_path() -> (path: Path)
        ensures
            path.wf(),
            path@ == seq![PATH_SEPARATOR],
    {
        let mut value: Vec<u8> = Vec::new();
        value.push(PATH_SEPARATOR);
        assert(value@ =~= seq![PATH_SEPARATOR]);
        Path { value }
    }

    /// Returns the bytes of the path.
    pub fn as_bytes(&self) -> (bytes: &[u8])
        ensures
            bytes@ == self@,
    {
        self.value.as_slice()
    }

    /// Returns the number of bytes of the path.
    pub fn len(&self) -> (len: usize)
        ensures
            len == self@.len(),
    {
        self.value.len()
    }

    /// Returns `true` if the path holds no byte.
    pub fn is_empty(&self) -> (empty: bool)
        ensures
            empty == (self@.len() == 0),
    {
        self.value.len() == 0
    }

    /// Appends `byte`, unless the path would become too long or `byte` is invalid; then
    /// the path stays as it is.
    pub fn push(&mut self, byte: u8) -> (result: Result<(), SemanticStringError>)
        requires
            old(self).wf(),
        ensures
            final(self).wf(),
            result == spec_check(old(self)@.push(byte)),
            result is Ok ==> final(self)@ == old(self)@.push(byte),
            result is Err ==> final(self)@ == old(self)@,
    {
        if self.value.len() >= PATH_LENGTH {
            return Err(SemanticStringError::ExceedsMaximumLength);
        }
        if is_invalid_byte(byte) {
            assert(is_invalid_character(self@.push(byte)[self@.len() as int]));
            return Err(SemanticStringError::InvalidContent);
        }
        self.value.push(byte);
        Ok(())
    }

    /// Appends `bytes`, unless the path would become too long or one of the bytes is
    /// invalid; then the path stays as it is.
    pub fn push_bytes(&mut self, bytes: &[u8]) -> (result: Result<(), SemanticStringError>)
        requires
            old(self).wf(),
        ensures
            final(self).wf(),
            result == spec_check(old(self)@ + bytes@),
            result is Ok ==> final(self)@ == old(self)@ + bytes@,
            result is Err ==> final(self)@ == old(self)@,
    {
        if bytes.len() > PATH_LENGTH - self.value.len() {
            return Err(SemanticStringError::ExceedsMaximumLength);
        }
        if does_contain_invalid_characters(bytes) {
            proof {
                let i = choose|i: int|
                    0 <= i < bytes@.len() && is_invalid_character(#[trigger] bytes@[i]);
                assert(is_invalid_character((self@ + bytes@)[self@.len() + i]));
            }
            return Err(SemanticStringError::InvalidContent);
        }
        let mut i: usize = 0;
        while i < bytes.len()
            invariant
                i <= bytes@.len(),
                self@ == old(self)@ + bytes@.take(i as int),
                old(self)@.len() + bytes@.len() <= PATH_LENGTH,
            decreases bytes@.len() - i,
        {
            self.value.push(bytes[i]);
            i += 1;
            assert(self@ =~= old(self)@ + bytes@.take(i as int));
        }
        assert(bytes@.take(bytes@.len() as int) =~= bytes@);
        Ok(())
    }

    /// Returns the normal form of the path: without a separator that follows another, and
    /// without its last byte where that is a separator.
    pub fn normalize(&self) -> (path: Path)
        requires
            self.wf(),
        ensures
            path.wf(),
            path@ == normalized(self@),
    {
        let mut raw_path: Vec<u8> = Vec::new();
        let mut previous_char_is_path_separator = false;
        let mut i: usize = 0;
        while i < self.value.len()
            invariant
                i <= self@.len(),
                raw_path@ == normalized_prefix(self@, i as int),
                previous_char_is_path_separator == (i > 0 && self@[i - 1] == PATH_SEPARATOR),
            decreases self@.len() - i,
        {
            let byte: u8 = self.value[i];
            let ends_the_path = i + 1 == self.value.len() && byte == PATH_SEPARATOR;
            if !ends_the_path && !(previous_char_is_path_separator && byte == PATH_SEPARATOR) {
                raw_path.push(byte);
            }
            previous_char_is_path_separator = byte == PATH_SEPARATOR;
            i += 1;
        }
        proof {
            lemma_normalized_prefix(self@, self@.len() as int);
        }
        Path { value: raw_path }
    }

    /// Creates the path with the given bytes in its normal form, unless the bytes are too
    /// many or one of them is invalid.
    pub fn new_normalized(value: &[u8]) -> (path: Result<Path, SemanticStringError>)
        ensures
            match path {
                Ok(p) => spec_check(value@) is Ok && p@ == normalized(value@) && p.wf(),
                Err(e) => spec_check(value@) == Err::<(), SemanticStringError>(e),
            },
    {
        match Path::new(value) {
            Ok(path) => Ok(path.normalize()),
            Err(e) => Err(e),
        }
    }

    /// Adds a file or directory entry to the path, behind a separator where the path is
    /// not empty and does not end with one.
    ///
    /// Where the path cannot take the separator it stays as it is. Where it cannot take the
    /// entry it keeps the separator.
    pub fn add_path_entry(&mut self, entry: &[u8]) -> (result: Result<(), SemanticStringError>)
        requires
            old(self).wf(),
        ensures
            final(self).wf(),
            ({
                let with_separator = if needs_separator(old(self)@) {
                    old(self)@.push(PATH_SEPARATOR)
                } else {
                    old(self)@
                };
                if spec_check(with_separator) is Err {
                    result == spec_check(with_separator) && final(self)@ == old(self)@
                } else {
                    &&& result == spec_check(with_separator + entry@)
                    &&& result is Ok ==> final(self)@ == with_separator + entry@
                    &&& result is Err ==> final(self)@ == with_separator
                }
            }),
    {
        if !self.is_empty() && self.as_bytes()[self.len() - 1] != PATH_SEPARATOR {
            match self.push(PATH_SEPARATOR) {
                Ok(()) => {},
                Err(e) => {
                    return Err(e);
                },
            }
        }
        self.push_bytes(entry)
    }

    /// Returns the entries of the path: what stands between its separators, without the
    /// empty entries. Every entry of a valid path has between one and [`FILENAME_LENGTH`]
    /// bytes.
    pub fn entries(&self) -> (entries: Vec<Vec<u8>>)
        ensures
            entries@.len() == split_entries(self@).len(),
            forall|k: int|
                0 <= k < entries@.len() ==> (#[trigger] entries@[k])@ == split_entries(self@)[k],
            forall|k: int| 0 <= k < entries@.len() ==> 0 < (#[trigger] entries@[k])@.len(),
            self.wf() ==> forall|k: int|
                0 <= k < entries@.len() ==> (#[trigger] entries@[k])@.len() <= FILENAME_LENGTH,
    {
        let mut entries: Vec<Vec<u8>> = Vec::new();
        let mut entry: Vec<u8> = Vec::new();
        let mut i: usize = 0;
        let ghost mut start: int = 0;
        while i < self.value.len()
            invariant
                0 <= start <= i <= self@.len(),
                start == 0 || self@[start - 1] == PATH_SEPARATOR,
                entry@ == self@.subrange(start, i as int),
                forall|j: int| start <= j < i ==> self@[j] != PATH_SEPARATOR,
                entries@.len() == split_entries(self@.take(start)).len(),
                forall|k: int|
                    0 <= k < entries@.len() ==> (#[trigger] entries@[k])@ == split_entries(
                        self@.take(start),
                    )[k],
            decreases self@.len() - i,
        {
            let byte: u8 = self.value[i];
            if byte == PATH_SEPARATOR {
                proof {
                    let head = self@.take(start);
                    let run = self@.subrange(start, i as int);
                    lemma_split_entries_run(run);
                    lemma_split_entries_concat(head, run.push(PATH_SEPARATOR));
                    assert(self@.take(i + 1) =~= head + run.push(PATH_SEPARATOR));
                }
                if entry.len() > 0 {
                    entries.push(entry);
                    entry = Vec::new();
                }
                proof {
                    start = i + 1;
                }
                assert(entry@ =~= self@.subrange(start, i + 1));
            } else {
                entry.push(byte);
                assert(entry@ =~= self@.subrange(start, i + 1));
            }
            i += 1;
        }
        proof {
            let head = self@.take(start);
            let run = self@.subrange(start, i as int);
            lemma_split_entries_run(run);
            lemma_split_entries_concat(head, run);
            assert(self@ =~= head + run);
        }
        if entry.len() > 0 {
            entries.push(entry);
        }
        proof {
            lemma_split_entries(self@);
            assert forall|k: int| 0 <= k < entries@.len() implies 0 < (#[trigger] entries@[k])@.len()
                <= self@.len() by {
                assert(entries@[k]@ == split_entries(self@)[k]);
            }
        }
        entries
    }

    /// Returns `true` if the path starts at the root of the file system.
    pub fn is_absolute(&self) -> (absolute: bool)
        ensures
            absolute == spec_is_absolute(self@),
    {
        if self.as_bytes().len() == 0 {
            return false;
        }
        self.as_bytes()[0] == PATH_SEPARATOR
    }
}

} // verus!
