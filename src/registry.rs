//! The registry: the ordered entries of the registry file, and the
//! operations that read, list and change them.
//!
//! Lines of the file that hold no command (blank lines, lines without the
//! marker, and a marker with nothing after it) are never entries: they are
//! ignored when the file is read, and a rewrite of the file leaves them out.

use vstd::prelude::*;

use crate::codec::{decode, decoded, encode, encoded};
use crate::text::{lines_of, split_lines, terminated, views};

verus! {

/// Why an operation on the registry did nothing.
#[derive(Clone, Copy, Debug, PartialEq, Eq, Structural)]
pub enum RegistryError {
    /// The text to add is empty or spans more than one line.
    InvalidCommand,
    /// A 1-based position outside the range that the operation accepts.
    PositionOutOfBounds { requested: usize, length: usize },
    /// No entry has the text that was asked for.
    NotFound,
}

/// What a request to clear the registry came to.
#[derive(Clone, Copy, Debug, PartialEq, Eq, Structural)]
pub enum ClearOutcome {
    Cleared,
    Cancelled,
}

/// A text that an entry can hold: not empty, and on one line.
pub open spec fn valid_text(t: Seq<char>) -> bool {
    t.len() > 0 && !t.contains('\n')
}

/// The command held by a line: its decoded text, when that is not empty.
pub open spec fn entry_text(line: Seq<char>) -> Option<Seq<char>> {
    match decoded(line) {
        Some(t) => if t.len() > 0 {
            Some(t)
        } else {
            None
        },
        None => None,
    }
}

/// The entries held by the lines of a file, in file order.
pub open spec fn entries_of(lines: Seq<Seq<char>>) -> Seq<Seq<char>> {
    lines.filter_map(|l: Seq<char>| entry_text(l))
}

/// The contents of a file that holds `entries`.
pub open spec fn rendered(entries: Seq<Seq<char>>) -> Seq<char> {
    terminated(entries.map_values(|t: Seq<char>| encoded(t)))
}

/// The entries with their 1-based positions.
pub open spec fn listing(entries: Seq<Seq<char>>) -> Seq<(int, Seq<char>)> {
    entries.map(|i: int, t: Seq<char>| (i + 1, t))
}

/// Adding `text`: at the end when no position is given; otherwise so that it
/// stands at `position`, or at the end when `position` lies past it.
pub open spec fn added(entries: Seq<Seq<char>>, text: Seq<char>, position: Option<usize>) -> Result<
    Seq<Seq<char>>,
    RegistryError,
> {
    if !valid_text(text) {
        Err(RegistryError::InvalidCommand)
    } else {
        match position {
            None => Ok(entries.push(text)),
            Some(p) => if p < 1 {
                Err(RegistryError::PositionOutOfBounds { requested: p, length: entries.len() as usize })
            } else if p <= entries.len() {
                Ok(entries.insert(p - 1, text))
            } else {
                Ok(entries.push(text))
            },
        }
    }
}

/// Removing the entry at a 1-based position.
pub open spec fn removed(entries: Seq<Seq<char>>, position: usize) -> Result<
    Seq<Seq<char>>,
    RegistryError,
> {
    if 1 <= position <= entries.len() {
        Ok(entries.remove(position - 1))
    } else {
        Err(RegistryError::PositionOutOfBounds { requested: position, length: entries.len() as usize })
    }
}

/// Removing the first entry whose text is `text`.
pub open spec fn removed_by_name(entries: Seq<Seq<char>>, text: Seq<char>) -> Result<
    Seq<Seq<char>>,
    RegistryError,
> {
    match entries.index_of_first(text) {
        Some(i) => Ok(entries.remove(i)),
        None => Err(RegistryError::NotFound),
    }
}

proof fn lemma_filter_map_add<A, B>(a: Seq<A>, b: Seq<A>, f: spec_fn(A) -> Option<B>)
    ensures
        (a + b).filter_map(f) == a.filter_map(f) + b.filter_map(f),
    decreases b.len(),
{
    if b.len() == 0 {
        assert(a + b =~= a);
        assert(a.filter_map(f) + b.filter_map(f) =~= a.filter_map(f));
    } else {
        lemma_filter_map_add(a, b.drop_last(), f);
        assert((a + b).drop_last() =~= a + b.drop_last());
        assert((a + b).last() == b.last());
        match f(b.last()) {
            Some(x) => {
                assert(a.filter_map(f) + b.drop_last().filter_map(f) + seq![x] =~= a.filter_map(f)
                    + (b.drop_last().filter_map(f) + seq![x]));
            },
            None => {},
        }
    }
}

/// A line that holds no command (a blank line, a line without the marker,
/// a marker with nothing after it) changes nothing in the registry read from
/// a file, wherever it stands: it is never listed and never selected by a
/// position.
pub proof fn lemma_non_entry_line_ignored(lines: Seq<Seq<char>>, i: int, line: Seq<char>)
    requires
        0 <= i <= lines.len(),
        entry_text(line) is None,
    ensures
        entries_of(lines.insert(i, line)) == entries_of(lines),
{
    let f = |l: Seq<char>| entry_text(l);
    let a = lines.take(i);
    let b = lines.skip(i);
    assert(lines.insert(i, line) =~= a + (seq![line] + b));
    assert(lines =~= a + b);
    lemma_filter_map_add(a, seq![line] + b, f);
    lemma_filter_map_add(seq![line], b, f);
    lemma_filter_map_add(a, b, f);
    Seq::lemma_filter_map_singleton(line, f);
    assert(seq![line].filter_map(f) + b.filter_map(f) =~= b.filter_map(f));
}

/// Reading the file written for a registry gives back the same entries.
pub proof fn lemma_contents_round_trip(entries: Seq<Seq<char>>)
    requires
        forall|i: int| 0 <= i < entries.len() ==> valid_text(#[trigger] entries[i]),
    ensures
        entries_of(lines_of(rendered(entries))) == entries,
{
    let g = |t: Seq<char>| encoded(t);
    let lines = entries.map_values(g);
    assert forall|i: int| 0 <= i < lines.len() implies !(#[trigger] lines[i]).contains('\n') by {
        assert(valid_text(entries[i]));
        if lines[i].contains('\n') {
            let k = choose|k: int| 0 <= k < lines[i].len() && lines[i][k] == '\n';
            assert(entries[i][k - 2] == '\n');
        }
    }
    crate::text::lemma_lines_of_terminated(lines);
    lemma_entries_of_encoded(entries);
}

proof fn lemma_entries_of_encoded(entries: Seq<Seq<char>>)
    requires
        forall|i: int| 0 <= i < entries.len() ==> valid_text(#[trigger] entries[i]),
    ensures
        entries_of(entries.map_values(|t: Seq<char>| encoded(t))) == entries,
    decreases entries.len(),
{
    let g = |t: Seq<char>| encoded(t);
    if entries.len() > 0 {
        let init = entries.drop_last();
        assert forall|i: int| 0 <= i < init.len() implies valid_text(#[trigger] init[i]) by {
            assert(init[i] == entries[i]);
        }
        lemma_entries_of_encoded(init);
        let t = entries.last();
        assert(valid_text(entries[entries.len() - 1]));
        crate::codec::lemma_decode_encode(t);
        assert(entries.map_values(g).drop_last() =~= init.map_values(g));
        assert(entries.map_values(g).last() == encoded(t));
        assert(init.push(t) =~= entries);
    } else {
        assert(entries.map_values(g) =~= Seq::<Seq<char>>::empty());
    }
}

/// Adding without a position puts the text last: the registry grows by one,
/// the earlier entries keep their positions, and the listing ends with the
/// new text at the last position.
pub proof fn lemma_add_appends(entries: Seq<Seq<char>>, t: Seq<char>)
    requires
        valid_text(t),
    ensures
        added(entries, t, None) is Ok,
        ({
            let after = added(entries, t, None)->Ok_0;
            &&& after.len() == entries.len() + 1
            &&& after.take(entries.len() as int) == entries
            &&& listing(after)[entries.len() as int] == (entries.len() + 1 as int, t)
        }),
{
    let after = entries.push(t);
    assert(after.take(entries.len() as int) =~= entries);
}

/// Adding at position 1 to a registry that is not empty puts the text first,
/// and the former first entry becomes the second.
pub proof fn lemma_add_first(entries: Seq<Seq<char>>, t: Seq<char>)
    requires
        valid_text(t),
        entries.len() >= 1,
    ensures
        added(entries, t, Some(1)) is Ok,
        ({
            let after = added(entries, t, Some(1))->Ok_0;
            &&& after.len() == entries.len() + 1
            &&& after[0] == t
            &&& after[1] == entries[0]
            &&& after.skip(1) == entries
        }),
{
    let after = entries.insert(0, t);
    assert(after.skip(1) =~= entries);
}

/// Removing at a position in range takes out exactly the entry that stood
/// there; the others keep their order.
pub proof fn lemma_remove_in_range(entries: Seq<Seq<char>>, k: usize)
    requires
        1 <= k <= entries.len(),
    ensures
        removed(entries, k) is Ok,
        ({
            let after = removed(entries, k)->Ok_0;
            &&& after.len() == entries.len() - 1
            &&& after == entries.take(k - 1) + entries.skip(k as int)
        }),
{
    assert(entries.remove(k - 1) =~= entries.take(k - 1) + entries.skip(k as int));
}

/// Removing at a position out of range changes nothing and reports the
/// position and the length.
pub proof fn lemma_remove_out_of_range(entries: Seq<Seq<char>>, k: usize)
    requires
        k < 1 || k > entries.len(),
    ensures
        removed(entries, k) == Err::<Seq<Seq<char>>, RegistryError>(
            RegistryError::PositionOutOfBounds { requested: k, length: entries.len() as usize },
        ),
{
}

/// Removing a text that no entry holds changes nothing and reports it.
pub proof fn lemma_remove_by_name_absent(entries: Seq<Seq<char>>, x: Seq<char>)
    requires
        forall|i: int| 0 <= i < entries.len() ==> entries[i] != x,
    ensures
        removed_by_name(entries, x) == Err::<Seq<Seq<char>>, RegistryError>(
            RegistryError::NotFound,
        ),
{
    entries.index_of_first_ensures(x);
}

/// Whether `text` can be an entry.
pub fn is_one_line(text: &str) -> (r: bool)
    ensures
        r == valid_text(text@),
{
    let mut seen_any = false;
    for c in it: text.chars()
        invariant
            it.seq() == text@,
            seen_any == (it.index() > 0),
            forall|k: int| 0 <= k < it.index() ==> text@[k] != '\n',
    {
        if c == '\n' {
            return false;
        }
        seen_any = true;
    }
    seen_any
}

/// The registered commands, in order.
pub struct Registry {
    entries: Vec<String>,
}

impl View for Registry {
    type V = Seq<Seq<char>>;

    closed spec fn view(&self) -> Seq<Seq<char>> {
        views(self.entries@)
    }
}

impl Registry {
    /// Every entry holds a valid text.
    pub open spec fn wf(&self) -> bool {
        forall|i: int| 0 <= i < self@.len() ==> valid_text(#[trigger] self@[i])
    }

    /// An empty registry.
    pub fn new() -> (r: Registry)
        ensures
            r@ == Seq::<Seq<char>>::empty(),
            r.wf(),
    {
        let r = Registry { entries: Vec::new() };
        assert(r@ =~= Seq::<Seq<char>>::empty());
        r
    }

    /// The registry held by the contents of a registry file.
    pub fn from_contents(contents: &str) -> (r: Registry)
        ensures
            r@ == entries_of(lines_of(contents@)),
            r.wf(),
    {
        let lines = split_lines(contents);
        let ghost ls = lines_of(contents@);
        let ghost f = |l: Seq<char>| entry_text(l);
        proof {
            crate::text::lemma_lines_of_lines(contents@);
        }
        let mut entries: Vec<String> = Vec::new();
        let mut k: usize = 0;
        assert(ls.take(0) =~= Seq::<Seq<char>>::empty());
        assert(views(entries@) =~= ls.take(0).filter_map(f));
        while k < lines.len()
            invariant
                k <= lines.len(),
                views(lines@) == ls,
                f == (|l: Seq<char>| entry_text(l)),
                forall|i: int| 0 <= i < ls.len() ==> !(#[trigger] ls[i]).contains('\n'),
                views(entries@) == ls.take(k as int).filter_map(f),
                forall|i: int| 0 <= i < entries@.len() ==> valid_text(#[trigger] entries@[i]@),
            decreases lines.len() - k,
        {
            let line = &lines[k];
            assert(line@ == ls[k as int]);
            proof {
                ls.lemma_filter_map_take_succ(f, k as int);
            }
            match decode(line.as_str()) {
                Some(text) => {
                    if text.unicode_len() > 0 {
                        assert(!text@.contains('\n')) by {
                            if text@.contains('\n') {
                                let j = choose|j: int| 0 <= j < text@.len() && text@[j] == '\n';
                                assert(line@[j + 2] == '\n');
                            }
                        }
                        entries.push(text);
                        assert(views(entries@) =~= views(entries@.drop_last()).push(
                            entries@.last()@,
                        ));
                    }
                },
                None => {},
            }
            k = k + 1;
        }
        assert(ls.take(lines.len() as int) =~= ls);
        Registry { entries }
    }

    /// The number of entries.
    pub fn len(&self) -> (n: usize)
        ensures
            n == self@.len(),
    {
        self.entries.len()
    }

    /// The entries with their 1-based positions, in order.
    pub fn list(&self) -> (r: Vec<(usize, String)>)
        ensures
            r@.len() == self@.len(),
            forall|i: int|
                0 <= i < r@.len() ==> (#[trigger] r@[i]).0 as int == listing(self@)[i].0 && r@[i].1@
                    == listing(self@)[i].1,
    {
        let mut r: Vec<(usize, String)> = Vec::new();
        let mut k: usize = 0;
        while k < self.entries.len()
            invariant
                k <= self.entries.len(),
                r@.len() == k,
                forall|i: int|
                    0 <= i < k ==> (#[trigger] r@[i]).0 as int == i + 1 && r@[i].1@
                        == self.entries@[i]@,
            decreases self.entries.len() - k,
        {
            r.push((k + 1, self.entries[k].clone()));
            k = k + 1;
        }
        r
    }

    /// Adds `text` as a new entry; see [`added`] for where it goes and when
    /// nothing changes.
    pub fn add(&mut self, text: &str, position: Option<usize>) -> (r: Result<(), RegistryError>)
        requires
            old(self).wf(),
        ensures
            final(self).wf(),
            match added(old(self)@, text@, position) {
                Ok(s) => r is Ok && final(self)@ == s,
                Err(e) => r == Err::<(), RegistryError>(e) && final(self)@ == old(self)@,
            },
    {
        if !is_one_line(text) {
            return Err(RegistryError::InvalidCommand);
        }
        let n = self.entries.len();
        let entry = text.to_owned();
        match position {
            None => {
                self.entries.push(entry);
                assert(self@ =~= old(self)@.push(text@));
            },
            Some(p) => {
                if p < 1 {
                    return Err(RegistryError::PositionOutOfBounds { requested: p, length: n });
                } else if p <= n {
                    self.entries.insert(p - 1, entry);
                    assert(self@ =~= old(self)@.insert(p - 1, text@));
                } else {
                    self.entries.push(entry);
                    assert(self@ =~= old(self)@.push(text@));
                }
            },
        }
        Ok(())
    }

    /// Removes the entry at the 1-based `position` and returns its text.
    pub fn remove_by_position(&mut self, position: usize) -> (r: Result<String, RegistryError>)
        requires
            old(self).wf(),
        ensures
            final(self).wf(),
            match removed(old(self)@, position) {
                Ok(s) => r is Ok && final(self)@ == s && r->Ok_0@ == old(self)@[position - 1],
                Err(e) => r == Err::<String, RegistryError>(e) && final(self)@ == old(self)@,
            },
    {
        let n = self.entries.len();
        if 1 <= position && position <= n {
            let t = self.entries.remove(position - 1);
            assert(self@ =~= old(self)@.remove(position - 1));
            Ok(t)
        } else {
            Err(RegistryError::PositionOutOfBounds { requested: position, length: n })
        }
    }

    /// The 1-based position of the first entry whose text is `text`.
    pub fn find(&self, text: &str) -> (r: Option<usize>)
        ensures
            match r {
                Some(p) => self@.index_of_first(text@) == Some(p - 1),
                None => self@.index_of_first(text@) is None,
            },
    {
        proof {
            self@.index_of_first_ensures(text@);
        }
        let wanted = text.to_owned();
        let mut k: usize = 0;
        while k < self.entries.len()
            invariant
                k <= self.entries.len(),
                wanted@ == text@,
                forall|j: int| 0 <= j < k ==> self@[j] != text@,
            decreases self.entries.len() - k,
        {
            assert(self.entries@[k as int]@ == self@[k as int]);
            if self.entries[k] == wanted {
                proof {
                    self@.index_of_first_ensures(text@);
                    let i = self@.index_of_first(text@)->0;
                    assert(self@[k as int] == text@);
                    assert(!(i < k));
                    assert(!(k < i));
                }
                return Some(k + 1);
            }
            k = k + 1;
        }
        proof {
            self@.index_of_first_ensures(text@);
        }
        None
    }

    /// Removes the first entry whose text is `text` and returns its former
    /// 1-based position.
    pub fn remove_by_name(&mut self, text: &str) -> (r: Result<usize, RegistryError>)
        requires
            old(self).wf(),
        ensures
            final(self).wf(),
            match removed_by_name(old(self)@, text@) {
                Ok(s) => r is Ok && old(self)@.index_of_first(text@) == Some(r->Ok_0 - 1)
                    && final(self)@ == s,
                Err(e) => r == Err::<usize, RegistryError>(e) && final(self)@ == old(self)@,
            },
    {
        proof {
            self@.index_of_first_ensures(text@);
        }
        match self.find(text) {
            Some(p) => {
                let _ = self.remove_by_position(p);
                Ok(p)
            },
            None => Err(RegistryError::NotFound),
        }
    }

    /// Empties the registry when the user confirmed it; otherwise leaves it as
    /// it is.
    pub fn clear(&mut self, confirmed: bool) -> (r: ClearOutcome)
        requires
            old(self).wf(),
        ensures
            final(self).wf(),
            confirmed ==> r == ClearOutcome::Cleared && final(self)@ == Seq::<Seq<char>>::empty(),
            !confirmed ==> r == ClearOutcome::Cancelled && final(self)@ == old(self)@,
    {
        if confirmed {
            self.entries.clear();
            assert(self@ =~= Seq::<Seq<char>>::empty());
            ClearOutcome::Cleared
        } else {
            ClearOutcome::Cancelled
        }
    }

    /// The contents of the registry file that holds these entries.
    pub fn contents(&self) -> (s: String)
        requires
            self.wf(),
        ensures
            s@ == rendered(self@),
    {
        let ghost f = |t: Seq<char>| encoded(t);
        let mut s = String::new();
        let mut k: usize = 0;
        assert(self@.take(0).map_values(f) =~= Seq::<Seq<char>>::empty());
        assert(terminated(Seq::<Seq<char>>::empty()) =~= Seq::<char>::empty());
        while k < self.entries.len()
            invariant
                self.wf(),
                k <= self.entries.len(),
                f == (|t: Seq<char>| encoded(t)),
                s@ == terminated(self@.take(k as int).map_values(f)),
            decreases self.entries.len() - k,
        {
            let entry = &self.entries[k];
            assert(entry@ == self@[k as int]);
            let line = encode(entry.as_str());
            let ghost before = self@.take(k as int).map_values(f);
            proof {
                crate::text::lemma_terminated_push(before, line@);
            }
            assert(self@.take(k + 1).map_values(f) =~= before.push(line@));
            s.append(line.as_str());
            let newline = "\n";
            proof {
                reveal_strlit("\n");
            }
            s.append(newline);
            assert(s@ =~= terminated(before) + line@.push('\n'));
            k = k + 1;
        }
        assert(self@.take(self@.len() as int) =~= self@);
        s
    }
}

} // verus!
