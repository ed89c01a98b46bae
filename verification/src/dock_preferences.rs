//! The applications pinned to the Dock, in the order the user gave them, and
//! the text file in which they are kept: one bundle identifier per line.
use crate::text::{
    chars_of, is_space, lemma_lines_nonempty, lines, split_lines, string_from_chars, trim, trim_chars,
    trim_end, trim_start,
};
use crate::platform::string_views;
use vstd::prelude::*;

verus! {

/// The characters that a bundle identifier may hold: lower-case ASCII
/// letters, digits, dots and hyphens.
pub open spec fn is_bundle_char(c: char) -> bool {
    let u = c as u32;
    (0x61 <= u <= 0x7a) || (0x30 <= u <= 0x39) || u == 0x2e || u == 0x2d
}

/// A bundle identifier: one to 128 bundle characters.
pub open spec fn valid_bundle_id(id: Seq<char>) -> bool {
    1 <= id.len() <= 128 && forall|i: int| 0 <= i < id.len() ==> is_bundle_char(#[trigger] id[i])
}

/// Pins are valid bundle identifiers, none of them twice.
pub open spec fn pins_valid(pins: Seq<Seq<char>>) -> bool {
    &&& forall|i: int| 0 <= i < pins.len() ==> valid_bundle_id(#[trigger] pins[i])
    &&& pins.no_duplicates()
}

/// Reading lines in order: each trimmed line that is a valid bundle
/// identifier and was not read before becomes the next pin.
pub open spec fn parse_pins(lines: Seq<Seq<char>>) -> Seq<Seq<char>>
    decreases lines.len(),
{
    if lines.len() == 0 {
        Seq::empty()
    } else {
        let before = parse_pins(lines.drop_last());
        let id = trim(lines.last());
        if valid_bundle_id(id) && !before.contains(id) {
            before.push(id)
        } else {
            before
        }
    }
}

/// The pins that a configuration text holds.
pub open spec fn parsed_pins(text: Seq<char>) -> Seq<Seq<char>> {
    parse_pins(lines(text))
}

/// Each pin followed by a line feed.
pub open spec fn pin_lines(pins: Seq<Seq<char>>) -> Seq<char>
    decreases pins.len(),
{
    if pins.len() == 0 {
        Seq::empty()
    } else {
        pin_lines(pins.drop_last()) + pins.last().push('\n')
    }
}

/// The text in which pins are saved: the pins joined by line feeds, and one
/// line feed at the end.
pub open spec fn serialized_pins(pins: Seq<Seq<char>>) -> Seq<char> {
    if pins.len() == 0 {
        seq!['\n']
    } else {
        pin_lines(pins)
    }
}

/// The Dock's pins.
#[derive(Debug, PartialEq, Eq)]
pub struct DockPreferences {
    pinned: Vec<String>,
}

impl Clone for DockPreferences {
    fn clone(&self) -> (copy: Self)
        ensures
            copy.pins() == self.pins(),
    {
        proof {
            use_type_invariant(self);
        }
        let pinned = self.pinned.clone();
        assert(string_views(pinned@) =~= self.pins());
        DockPreferences { pinned }
    }
}

fn valid_bundle_chars(id: &[char]) -> (valid: bool)
    ensures
        valid == valid_bundle_id(id@),
{
    if id.len() == 0 || id.len() > 128 {
        return false;
    }
    let mut index: usize = 0;
    while index < id.len()
        invariant
            index <= id@.len(),
            forall|i: int| 0 <= i < index ==> is_bundle_char(#[trigger] id@[i]),
        decreases id@.len() - index,
    {
        let u = id[index] as u32;
        if !((0x61 <= u && u <= 0x7a) || (0x30 <= u && u <= 0x39) || u == 0x2e || u == 0x2d) {
            return false;
        }
        index = index + 1;
    }
    true
}

/// Whether `value` is a bundle identifier that the Dock accepts.
pub fn valid_bundle_id_text(value: &str) -> (valid: bool)
    ensures
        valid == valid_bundle_id(value@),
{
    let chars = chars_of(value);
    valid_bundle_chars(chars.as_slice())
}

fn position_of(pinned: &Vec<String>, target: &String) -> (index: Option<usize>)
    ensures
        match index {
            Some(i) => i < pinned@.len() && pinned@[i as int]@ == target@ && forall|j: int|
                0 <= j < i ==> (#[trigger] pinned@[j])@ != target@,
            None => forall|j: int| 0 <= j < pinned@.len() ==> (#[trigger] pinned@[j])@ != target@,
        },
{
    let mut index: usize = 0;
    while index < pinned.len()
        invariant
            index <= pinned@.len(),
            forall|j: int| 0 <= j < index ==> (#[trigger] pinned@[j])@ != target@,
        decreases pinned@.len() - index,
    {
        if pinned[index] == *target {
            return Some(index);
        }
        index = index + 1;
    }
    None
}

impl DockPreferences {
    /// The pins, in Dock order.
    pub closed spec fn pins(&self) -> Seq<Seq<char>> {
        string_views(self.pinned@)
    }

    #[verifier::type_invariant]
    closed spec fn pins_are_valid(&self) -> bool {
        pins_valid(self.pins())
    }

    /// Files, then Terminal.
    pub fn default() -> (preferences: Self)
        ensures
            preferences.pins() == seq!["org.mochios.files"@, "org.mochios.terminal"@],
            pins_valid(preferences.pins()),
    {
        let pinned = vec!["org.mochios.files".to_owned(), "org.mochios.terminal".to_owned()];
        let ghost expected = seq!["org.mochios.files"@, "org.mochios.terminal"@];
        assert(string_views(pinned@) =~= expected);
        proof {
            reveal_strlit("org.mochios.files");
            reveal_strlit("org.mochios.terminal");
            assert(valid_bundle_id(expected[0]));
            assert(valid_bundle_id(expected[1]));
            assert(expected[0] != expected[1]);
        }
        DockPreferences { pinned }
    }

    pub fn pinned(&self) -> (pinned: &[String])
        ensures
            string_views(pinned@) == self.pins(),
            pins_valid(self.pins()),
    {
        proof {
            use_type_invariant(self);
        }
        self.pinned.as_slice()
    }

    pub fn is_pinned(&self, bundle_id: &str) -> (pinned: bool)
        ensures
            pinned == self.pins().contains(bundle_id@),
    {
        let target = bundle_id.to_owned();
        let found = position_of(&self.pinned, &target);
        proof {
            if let Some(i) = found {
                assert(self.pins()[i as int] == bundle_id@);
            }
            if found is None && self.pins().contains(bundle_id@) {
                let i = choose|i: int| 0 <= i < self.pins().len() && self.pins()[i] == bundle_id@;
                assert(self.pinned@[i]@ == bundle_id@);
            }
        }
        found.is_some()
    }

    /// Pins `bundle_id` at the end of the Dock, unless it is no bundle
    /// identifier or is pinned already; says whether anything changed.
    pub fn pin(&mut self, bundle_id: &str) -> (changed: bool)
        ensures
            changed == (valid_bundle_id(bundle_id@) && !old(self).pins().contains(bundle_id@)),
            changed ==> final(self).pins() == old(self).pins().push(bundle_id@),
            !changed ==> final(self).pins() == old(self).pins(),
            pins_valid(final(self).pins()),
    {
        proof {
            use_type_invariant(&*self);
        }
        if !valid_bundle_id_text(bundle_id) || self.is_pinned(bundle_id) {
            return false;
        }
        let ghost before = self.pins();
        let mut pinned: Vec<String> = Vec::new();
        std::mem::swap(&mut pinned, &mut self.pinned);
        pinned.push(bundle_id.to_owned());
        assert(string_views(pinned@) =~= before.push(bundle_id@));
        self.pinned = pinned;
        true
    }

    /// Removes `bundle_id` from the Dock; says whether it was pinned.
    pub fn unpin(&mut self, bundle_id: &str) -> (changed: bool)
        ensures
            changed == old(self).pins().contains(bundle_id@),
            changed ==> final(self).pins() == old(self).pins().remove(
                old(self).pins().index_of(bundle_id@),
            ),
            !changed ==> final(self).pins() == old(self).pins(),
            pins_valid(final(self).pins()),
    {
        proof {
            use_type_invariant(&*self);
        }
        let target = bundle_id.to_owned();
        let index = match position_of(&self.pinned, &target) {
            Some(index) => index,
            None => {
                proof {
                    if self.pins().contains(bundle_id@) {
                        let i = choose|i: int|
                            0 <= i < self.pins().len() && self.pins()[i] == bundle_id@;
                        assert(self.pinned@[i]@ == bundle_id@);
                    }
                }
                return false;
            },
        };
        let ghost before = self.pins();
        proof {
            assert(before[index as int] == bundle_id@);
            assert(before.index_of(bundle_id@) == index) by {
                assert forall|j: int| 0 <= j < before.len() && before[j] == bundle_id@ implies j
                    == index by {
                    assert(before.no_duplicates());
                }
            }
        }
        let mut pinned: Vec<String> = Vec::new();
        std::mem::swap(&mut pinned, &mut self.pinned);
        pinned.remove(index);
        assert(string_views(pinned@) =~= before.remove(index as int));
        proof {
            lemma_removed_pins_valid(before, index as int);
        }
        self.pinned = pinned;
        true
    }

    /// Moves the pin at `from` to position `to`; refused (and nothing
    /// changes) when either is out of range or they are equal.
    pub fn move_pin(&mut self, from: usize, to: usize) -> (changed: bool)
        ensures
            changed == (from < old(self).pins().len() && to < old(self).pins().len() && from
                != to),
            changed ==> final(self).pins() == old(self).pins().remove(from as int).insert(
                to as int,
                old(self).pins()[from as int],
            ),
            !changed ==> final(self).pins() == old(self).pins(),
            pins_valid(final(self).pins()),
    {
        proof {
            use_type_invariant(&*self);
        }
        if from >= self.pinned.len() || to >= self.pinned.len() || from == to {
            return false;
        }
        let ghost before = self.pins();
        let mut pinned: Vec<String> = Vec::new();
        std::mem::swap(&mut pinned, &mut self.pinned);
        let bundle_id = pinned.remove(from);
        pinned.insert(to, bundle_id);
        assert(string_views(pinned@) =~= before.remove(from as int).insert(
            to as int,
            before[from as int],
        ));
        proof {
            lemma_moved_pins_valid(before, from as int, to as int);
        }
        self.pinned = pinned;
        true
    }

    /// Moves the pin `from` to where the pin `to` stands.
    pub fn move_pin_bundle(&mut self, from: &str, to: &str) -> (changed: bool)
        ensures
            changed == (old(self).pins().contains(from@) && old(self).pins().contains(to@)
                && from@ != to@),
            changed ==> final(self).pins() == old(self).pins().remove(
                old(self).pins().index_of(from@),
            ).insert(old(self).pins().index_of(to@), from@),
            !changed ==> final(self).pins() == old(self).pins(),
            pins_valid(final(self).pins()),
    {
        proof {
            use_type_invariant(&*self);
        }
        let ghost before = self.pins();
        let from_target = from.to_owned();
        let from_index = match position_of(&self.pinned, &from_target) {
            Some(index) => index,
            None => {
                proof {
                    if before.contains(from@) {
                        let i = choose|i: int| 0 <= i < before.len() && before[i] == from@;
                        assert(self.pinned@[i]@ == from@);
                    }
                }
                return false;
            },
        };
        let to_target = to.to_owned();
        let to_index = match position_of(&self.pinned, &to_target) {
            Some(index) => index,
            None => {
                proof {
                    if before.contains(to@) {
                        let i = choose|i: int| 0 <= i < before.len() && before[i] == to@;
                        assert(self.pinned@[i]@ == to@);
                    }
                }
                return false;
            },
        };
        proof {
            lemma_index_of_unique(before, from_index as int);
            lemma_index_of_unique(before, to_index as int);
            assert(before[from_index as int] == from@);
            assert(before[to_index as int] == to@);
            if from@ == to@ {
                assert(from_index == to_index);
            }
        }
        self.move_pin(from_index, to_index)
    }

    /// The pins that a configuration text holds: the valid bundle
    /// identifiers among its trimmed lines, each the first time it occurs.
    pub fn parse(text: &str) -> (preferences: Self)
        ensures
            preferences.pins() == parsed_pins(text@),
            pins_valid(preferences.pins()),
    {
        let chars = chars_of(text);
        let all_lines = split_lines(chars.as_slice());
        let mut pinned: Vec<String> = Vec::new();
        let mut index: usize = 0;
        while index < all_lines.len()
            invariant
                index <= all_lines@.len(),
                crate::text::line_views(all_lines@) == lines(text@),
                string_views(pinned@) == parse_pins(lines(text@).take(index as int)),
                pins_valid(string_views(pinned@)),
            decreases all_lines@.len() - index,
        {
            let ghost before = string_views(pinned@);
            let ghost taken = lines(text@).take(index + 1);
            assert(taken.drop_last() =~= lines(text@).take(index as int));
            assert(taken.last() == all_lines@[index as int]@);
            let id = trim_chars(all_lines[index].as_slice());
            if valid_bundle_chars(id.as_slice()) {
                let candidate = string_from_chars(id.as_slice());
                match position_of(&pinned, &candidate) {
                    Some(j) => {
                        assert(before[j as int] == id@);
                    },
                    None => {
                        proof {
                            if before.contains(id@) {
                                let i = choose|i: int| 0 <= i < before.len() && before[i] == id@;
                                assert(pinned@[i]@ == id@);
                            }
                        }
                        pinned.push(candidate);
                        assert(string_views(pinned@) =~= before.push(id@));
                    },
                }
            }
            index = index + 1;
        }
        assert(lines(text@).take(all_lines@.len() as int) =~= lines(text@));
        DockPreferences { pinned }
    }

    /// The text in which the pins are saved.
    pub fn serialize(&self) -> (text: String)
        ensures
            text@ == serialized_pins(self.pins()),
    {
        let mut chars: Vec<char> = Vec::new();
        let mut index: usize = 0;
        while index < self.pinned.len()
            invariant
                index <= self.pinned@.len(),
                chars@ == pin_lines(self.pins().take(index as int)),
            decreases self.pinned@.len() - index,
        {
            let pin = chars_of(self.pinned[index].as_str());
            let mut k: usize = 0;
            let ghost start = chars@;
            while k < pin.len()
                invariant
                    k <= pin@.len(),
                    chars@ == start + pin@.take(k as int),
                decreases pin@.len() - k,
            {
                chars.push(pin[k]);
                k = k + 1;
                assert(chars@ =~= start + pin@.take(k as int));
            }
            chars.push('\n');
            assert(self.pins().take(index + 1).drop_last() =~= self.pins().take(index as int));
            assert(pin@.take(pin@.len() as int) =~= pin@);
            assert(chars@ =~= pin_lines(self.pins().take(index + 1)));
            index = index + 1;
        }
        assert(self.pins().take(self.pinned@.len() as int) =~= self.pins());
        if self.pinned.len() == 0 {
            chars.push('\n');
            assert(chars@ =~= seq!['\n']);
        }
        string_from_chars(chars.as_slice())
    }
}

proof fn lemma_index_of_unique(pins: Seq<Seq<char>>, i: int)
    requires
        pins.no_duplicates(),
        0 <= i < pins.len(),
    ensures
        pins.index_of(pins[i]) == i,
{
    assert(pins.contains(pins[i]));
}

proof fn lemma_removed_pins_valid(pins: Seq<Seq<char>>, index: int)
    requires
        pins_valid(pins),
        0 <= index < pins.len(),
    ensures
        pins_valid(pins.remove(index)),
{
    let removed = pins.remove(index);
    assert forall|a: int, b: int| 0 <= a < removed.len() && 0 <= b < removed.len() && a != b implies removed[a]
        != removed[b] by {
        let sa = if a < index { a } else { a + 1 };
        let sb = if b < index { b } else { b + 1 };
        assert(removed[a] == pins[sa]);
        assert(removed[b] == pins[sb]);
    }
    assert forall|k: int| 0 <= k < removed.len() implies valid_bundle_id(#[trigger] removed[k]) by {
        let sk = if k < index { k } else { k + 1 };
        assert(removed[k] == pins[sk]);
    }
}

/// Where the pin at position `k` of a moved list came from.
spec fn moved_source(from: int, to: int, k: int) -> int {
    let removed_index = if k < to {
        k
    } else {
        k - 1
    };
    if k == to {
        from
    } else if removed_index < from {
        removed_index
    } else {
        removed_index + 1
    }
}

proof fn lemma_moved_pins_valid(pins: Seq<Seq<char>>, from: int, to: int)
    requires
        pins_valid(pins),
        0 <= from < pins.len(),
        0 <= to < pins.len(),
    ensures
        pins_valid(pins.remove(from).insert(to, pins[from])),
{
    let moved = pins.remove(from).insert(to, pins[from]);
    assert(moved.len() == pins.len());
    assert forall|k: int| 0 <= k < moved.len() implies moved[k] == pins[moved_source(from, to, k)]
        && 0 <= moved_source(from, to, k) < pins.len() by {
    }
    assert forall|a: int, b: int| 0 <= a < moved.len() && 0 <= b < moved.len() && a != b implies moved[a]
        != moved[b] by {
        assert(moved[a] == pins[moved_source(from, to, a)]);
        assert(moved[b] == pins[moved_source(from, to, b)]);
    }
    assert forall|k: int| 0 <= k < moved.len() implies valid_bundle_id(#[trigger] moved[k]) by {
        assert(moved[k] == pins[moved_source(from, to, k)]);
    }
}


// ---------------------------------------------------------------------------
// Laws of the Dock's pins.
// ---------------------------------------------------------------------------

/// Pinning an application and unpinning it again leaves the Dock as it was.
pub proof fn lemma_pin_then_unpin(pins: Seq<Seq<char>>, id: Seq<char>)
    requires
        pins_valid(pins),
        valid_bundle_id(id),
        !pins.contains(id),
    ensures
        pins.push(id).contains(id),
        pins.push(id).remove(pins.push(id).index_of(id)) == pins,
{
    let pushed = pins.push(id);
    assert(pushed[pins.len() as int] == id);
    assert(pushed.contains(id));
    assert(pushed.index_of(id) == pins.len()) by {
        assert forall|j: int| 0 <= j < pushed.len() && pushed[j] == id implies j == pins.len() by {
            if j < pins.len() {
                assert(pins[j] == id);
            }
        }
    }
    assert(pushed.remove(pins.len() as int) =~= pins);
}

/// Moving a pin changes the order of the Dock, never what it holds.
pub proof fn lemma_move_keeps_pins(pins: Seq<Seq<char>>, from: int, to: int)
    requires
        0 <= from < pins.len(),
        0 <= to < pins.len(),
    ensures
        pins.remove(from).insert(to, pins[from]).to_multiset() == pins.to_multiset(),
{
    vstd::seq_lib::to_multiset_remove(pins, from);
    vstd::seq_lib::to_multiset_insert(pins.remove(from), to, pins[from]);
    vstd::seq_lib::to_multiset_contains(pins, pins[from]);
    assert(pins.contains(pins[from]));
    assert(pins.to_multiset().remove(pins[from]).insert(pins[from]) =~= pins.to_multiset()) by {
        broadcast use vstd::multiset::group_multiset_axioms;

    }
}

proof fn lemma_bundle_chars_are_not_spaces(c: char)
    requires
        is_bundle_char(c),
    ensures
        !is_space(c),
{
}

proof fn lemma_trim_valid_id(id: Seq<char>)
    requires
        valid_bundle_id(id),
    ensures
        trim(id) == id,
{
    lemma_bundle_chars_are_not_spaces(id[0]);
    lemma_bundle_chars_are_not_spaces(id[id.len() - 1]);
    assert(trim_start(id) == id);
}

proof fn lemma_trim_empty()
    ensures
        trim(Seq::<char>::empty()) == Seq::<char>::empty(),
{
    assert(trim_start(Seq::<char>::empty()) == Seq::<char>::empty());
}

/// Appending text without a line feed extends the last line.
proof fn lemma_lines_extend(s: Seq<char>, t: Seq<char>)
    requires
        !t.contains('\n'),
    ensures
        lines(s + t) == lines(s).update(lines(s).len() - 1, lines(s).last() + t),
    decreases t.len(),
{
    lemma_lines_nonempty(s);
    if t.len() == 0 {
        assert(s + t =~= s);
        assert(lines(s).last() + t =~= lines(s).last());
        assert(lines(s).update(lines(s).len() - 1, lines(s).last() + t) =~= lines(s));
    } else {
        let shorter = t.drop_last();
        assert(!shorter.contains('\n')) by {
            if shorter.contains('\n') {
                let i = choose|i: int| 0 <= i < shorter.len() && shorter[i] == '\n';
                assert(t[i] == '\n');
            }
        }
        lemma_lines_extend(s, shorter);
        assert((s + t).drop_last() =~= s + shorter);
        assert((s + t).last() == t.last());
        assert(t[t.len() - 1] != '\n') by {
            if t[t.len() - 1] == '\n' {
                assert(t.contains('\n'));
            }
        }
        lemma_lines_nonempty(s + shorter);
        assert((lines(s).last() + shorter).push(t.last()) =~= lines(s).last() + t);
        assert(lines(s + t) =~= lines(s).update(lines(s).len() - 1, lines(s).last() + t));
    }
}

proof fn lemma_valid_id_has_no_line_feed(id: Seq<char>)
    requires
        valid_bundle_id(id),
    ensures
        !id.contains('\n'),
{
    if id.contains('\n') {
        let i = choose|i: int| 0 <= i < id.len() && id[i] == '\n';
        assert(is_bundle_char(id[i]));
    }
}

proof fn lemma_lines_of_pin_lines(pins: Seq<Seq<char>>)
    requires
        forall|i: int| 0 <= i < pins.len() ==> valid_bundle_id(#[trigger] pins[i]),
    ensures
        lines(pin_lines(pins)) == pins.push(Seq::<char>::empty()),
    decreases pins.len(),
{
    if pins.len() == 0 {
        assert(lines(pin_lines(pins)) =~= pins.push(Seq::<char>::empty()));
    } else {
        let before = pins.drop_last();
        let last = pins.last();
        assert forall|i: int| 0 <= i < before.len() implies valid_bundle_id(#[trigger] before[i]) by {
            assert(before[i] == pins[i]);
        }
        lemma_lines_of_pin_lines(before);
        assert(valid_bundle_id(pins[pins.len() - 1]));
        lemma_valid_id_has_no_line_feed(last);
        lemma_lines_extend(pin_lines(before), last);
        let text = pin_lines(before) + last;
        assert(pin_lines(pins) =~= text.push('\n'));
        assert(text.push('\n').drop_last() =~= text);
        assert(Seq::<char>::empty() + last =~= last);
        assert(lines(text) =~= pins);
        assert(lines(pin_lines(pins)) =~= pins.push(Seq::<char>::empty()));
    }
}

proof fn lemma_parse_valid_pins(pins: Seq<Seq<char>>)
    requires
        pins_valid(pins),
    ensures
        parse_pins(pins) == pins,
    decreases pins.len(),
{
    if pins.len() > 0 {
        let before = pins.drop_last();
        assert forall|i: int| 0 <= i < before.len() implies valid_bundle_id(#[trigger] before[i]) by {
            assert(before[i] == pins[i]);
        }
        assert(before.no_duplicates()) by {
            assert forall|a: int, b: int| 0 <= a < before.len() && 0 <= b < before.len() && a != b implies before[a] != before[b] by {
                assert(before[a] == pins[a] && before[b] == pins[b]);
            }
        }
        lemma_parse_valid_pins(before);
        assert(valid_bundle_id(pins[pins.len() - 1]));
        lemma_trim_valid_id(pins.last());
        assert(!before.contains(pins.last())) by {
            if before.contains(pins.last()) {
                let i = choose|i: int| 0 <= i < before.len() && before[i] == pins.last();
                assert(pins[i] == pins[pins.len() - 1]);
            }
        }
        assert(before.push(pins.last()) =~= pins);
    }
}

/// What a save writes, a load reads back: parsing the saved text of valid
/// pins gives exactly those pins, in the same order.
pub proof fn lemma_saved_pins_load_back(pins: Seq<Seq<char>>)
    requires
        pins_valid(pins),
    ensures
        parsed_pins(serialized_pins(pins)) == pins,
{
    lemma_trim_empty();
    if pins.len() == 0 {
        let text = seq!['\n'];
        let empty = Seq::<char>::empty();
        assert(text.drop_last() =~= empty);
        assert(text.last() == '\n');
        assert(lines(empty) == seq![empty]);
        assert(lines(text) == lines(text.drop_last()).push(empty));
        assert(lines(text) =~= seq![empty, empty]);
        assert(serialized_pins(pins) == text);
        let one = seq![empty];
        let two = seq![empty, empty];
        assert(two.drop_last() =~= one);
        assert(one.drop_last() =~= Seq::<Seq<char>>::empty());
        assert(parse_pins(Seq::<Seq<char>>::empty()) == Seq::<Seq<char>>::empty());
        assert(trim(one.last()) == empty);
        assert(parse_pins(one) == Seq::<Seq<char>>::empty());
        assert(trim(two.last()) == empty);
        assert(parse_pins(two) == Seq::<Seq<char>>::empty());
        assert(pins =~= Seq::<Seq<char>>::empty());
    } else {
        lemma_lines_of_pin_lines(pins);
        lemma_parse_valid_pins(pins);
        assert(pins.push(Seq::<char>::empty()).drop_last() =~= pins);
    }
}

} // verus!
