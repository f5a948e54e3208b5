//! Definition files: which folder they are looked for in, the walk through that
//! folder and those below it, and the order in which the files are handed out.
use vstd::prelude::*;

use crate::ecu::{or_default, text_or};
use crate::text::{ascii_lowered, chars_of, same_ignoring_ascii_case, trim, trimmed};

verus! {

/// A definition file as text.
pub ghost struct Def {
    pub name: Seq<char>,
    pub xml: Seq<char>,
}

/// The raw XML of one definition file, and the file's name.
#[derive(Clone, Debug, PartialEq, Eq)]
pub struct DefFile {
    pub name: String,
    pub xml: String,
}

impl View for DefFile {
    type V = Def;

    open spec fn view(&self) -> Def {
        Def { name: self.name@, xml: self.xml@ }
    }
}

/// The text of every definition file of a list.
pub open spec fn defs(files: Seq<DefFile>) -> Seq<Def> {
    files.map_values(|f: DefFile| f@)
}

/// The folder that definitions are looked for in: the one that is given, without
/// white space around it, unless nothing is left of it; then the one that is set
/// for all calls.
pub open spec fn chosen_folder(given: Option<String>, set: Option<String>) -> Option<Seq<char>> {
    if given is Some && trimmed(given->0@).len() > 0 {
        Some(trimmed(given->0@))
    } else {
        match set {
            Some(s) => Some(s@),
            None => None,
        }
    }
}

/// Chooses the folder that definitions are looked for in. `set` is what the
/// environment names.
pub fn definitions_dir(given: Option<String>, set: Option<String>) -> (r: Result<String, String>)
    ensures
        match chosen_folder(given, set) {
            Some(folder) => r matches Ok(d) && d@ == folder,
            None => r matches Err(m) && m@
                == "no definitions directory: pass one or set NISDEFINITIONS_PATH"@,
        },
{
    if let Some(d) = given {
        let t: String = trim(d.as_str());
        if !t.as_str().is_empty() {
            return Ok(t);
        }
    }
    match set {
        Some(s) => Ok(s),
        None => Err("no definitions directory: pass one or set NISDEFINITIONS_PATH".to_owned()),
    }
}

/// Refuses a path that is no folder.
pub fn require_folder(dir: &str, is_folder: bool) -> (r: Result<(), String>)
    ensures
        is_folder ==> r is Ok,
        !is_folder ==> (r matches Err(m) && m@ == "definitions directory not found: "@ + dir@),
{
    if is_folder {
        return Ok(());
    }
    let mut m: String = "definitions directory not found: ".to_owned();
    m.append(dir);
    Err(m)
}

/// A file extension marks a definition file.
pub open spec fn xml_extension(extension: Option<Seq<char>>) -> bool {
    match extension {
        Some(e) => ascii_lowered(e) == "xml"@,
        None => false,
    }
}

/// The characters of an optional text.
pub open spec fn text_view(text: Option<String>) -> Option<Seq<char>> {
    match text {
        Some(t) => Some(t@),
        None => None,
    }
}

/// Whether a file extension marks a definition file: `xml` in any letter case.
pub fn is_xml(extension: Option<String>) -> (r: bool)
    ensures
        r == xml_extension(text_view(extension)),
{
    match extension {
        Some(e) => {
            proof {
                reveal_strlit("xml");
                assert(ascii_lowered("xml"@) =~= "xml"@);
            }
            same_ignoring_ascii_case(e.as_str(), "xml")
        },
        None => false,
    }
}

/// A walk through folders: the folders that are still to be listed, and the
/// definition files that were found, in the order in which they were found.
#[verifier::ext_equal]
pub ghost struct WalkState<P> {
    pub pending: Seq<P>,
    pub found: Seq<Def>,
}

impl<P> WalkState<P> {
    /// The walk at its start, with one folder to list.
    pub open spec fn start(root: P) -> WalkState<P> {
        WalkState { pending: seq![root], found: Seq::empty() }
    }

    /// The walk with one more folder to list.
    pub open spec fn queue(self, folder: P) -> WalkState<P> {
        WalkState { pending: self.pending.push(folder), found: self.found }
    }

    /// The walk without the folder that was queued last.
    pub open spec fn unqueue(self) -> WalkState<P> {
        WalkState { pending: self.pending.drop_last(), found: self.found }
    }

    /// The walk with one more definition file found.
    pub open spec fn record(self, def: Def) -> WalkState<P> {
        WalkState { pending: self.pending, found: self.found.push(def) }
    }
}

/// What is to be done about an entry of a folder.
#[derive(Debug, PartialEq, Eq)]
pub enum EntryStep<P> {
    /// Nothing now: it is a folder, and is listed later.
    Queued,
    /// Its text is to be read: it is a definition file.
    Read(P),
    /// Nothing: it is another file.
    Skipped,
}

/// A walk through the folders of definition files, with paths of type `P`.
pub struct DefWalk<P> {
    pending: Vec<P>,
    found: Vec<DefFile>,
}

impl<P> View for DefWalk<P> {
    type V = WalkState<P>;

    closed spec fn view(&self) -> WalkState<P> {
        WalkState { pending: self.pending@, found: defs(self.found@) }
    }
}

impl<P> DefWalk<P> {
    /// A walk that starts at the folder `root`.
    pub fn new(root: P) -> (r: DefWalk<P>)
        ensures
            r@ == WalkState::start(root),
    {
        let mut pending: Vec<P> = Vec::new();
        pending.push(root);
        let r: DefWalk<P> = DefWalk { pending, found: Vec::new() };
        assert(r@ =~= WalkState::start(root));
        r
    }

    /// The next folder to list, which is the one that was queued last, or
    /// nothing when the walk is over.
    pub fn next_folder(&mut self) -> (r: Option<P>)
        ensures
            old(self)@.pending.len() == 0 ==> r is None && final(self)@ == old(self)@,
            old(self)@.pending.len() > 0 ==> r == Some(old(self)@.pending.last()) && final(self)@
                == old(self)@.unqueue(),
    {
        self.pending.pop()
    }

    /// Takes in one entry of the folder that is listed, and tells what is to be
    /// done about it.
    pub fn entry(&mut self, path: P, is_folder: bool, extension: Option<String>) -> (r: EntryStep<
        P,
    >)
        ensures
            is_folder ==> r == EntryStep::<P>::Queued && final(self)@ == old(self)@.queue(path),
            !is_folder && xml_extension(text_view(extension)) ==> r == EntryStep::Read(path)
                && final(self)@ == old(self)@,
            !is_folder && !xml_extension(text_view(extension)) ==> r == EntryStep::<P>::Skipped
                && final(self)@ == old(self)@,
    {
        if is_folder {
            self.pending.push(path);
            return EntryStep::Queued;
        }
        if is_xml(extension) {
            EntryStep::Read(path)
        } else {
            EntryStep::Skipped
        }
    }

    /// Takes in the text of a definition file. A file whose name is no text is
    /// called `?`.
    pub fn record(&mut self, file_name: Option<String>, xml: String)
        ensures
            final(self)@ == old(self)@.record(
                Def { name: text_or(file_name, "?"@), xml: xml@ },
            ),
    {
        let name: String = or_default(file_name, "?");
        self.found.push(DefFile { name, xml });
        assert(self@ =~= old(self)@.record(Def { name: name@, xml: xml@ }));
    }

    /// The definition files that were found, by name. Files of the same name
    /// stay in the order in which they were found.
    pub fn finish(self) -> (r: Vec<DefFile>)
        ensures
            stable_sort_of(defs(r@), self@.found),
    {
        sort_by_name(self.found)
    }
}

/// `a` does not come after `b` in the order of the characters' code points.
pub open spec fn name_le(a: Seq<char>, b: Seq<char>) -> bool
    decreases a.len(),
{
    if a.len() == 0 {
        true
    } else if b.len() == 0 {
        false
    } else if a[0] != b[0] {
        a[0] < b[0]
    } else {
        name_le(a.skip(1), b.skip(1))
    }
}

/// Names never descend.
pub open spec fn by_name(list: Seq<Def>) -> bool {
    forall|i: int, j: int|
        0 <= i <= j < list.len() ==> name_le((#[trigger] list[i]).name, (#[trigger] list[j]).name)
}

/// The files of one name, in order.
pub open spec fn named(list: Seq<Def>, name: Seq<char>) -> Seq<Def> {
    list.filter(|d: Def| d.name == name)
}

/// `sorted` holds the files of `list` by name, and those of the same name in the
/// order that they have in `list`.
pub open spec fn stable_sort_of(sorted: Seq<Def>, list: Seq<Def>) -> bool {
    &&& by_name(sorted)
    &&& sorted.to_multiset() == list.to_multiset()
    &&& forall|name: Seq<char>| #[trigger] named(sorted, name) == named(list, name)
}

/// A name does not come after itself.
pub proof fn name_le_reflexive(a: Seq<char>)
    ensures
        name_le(a, a),
    decreases a.len(),
{
    if a.len() > 0 {
        name_le_reflexive(a.skip(1));
    }
}

/// Of two names one does not come after the other.
pub proof fn name_le_total(a: Seq<char>, b: Seq<char>)
    ensures
        name_le(a, b) || name_le(b, a),
    decreases a.len(),
{
    if a.len() > 0 && b.len() > 0 && a[0] == b[0] {
        name_le_total(a.skip(1), b.skip(1));
    }
}

/// Names that do not come after each other are the same.
pub proof fn name_le_antisymmetric(a: Seq<char>, b: Seq<char>)
    requires
        name_le(a, b),
        name_le(b, a),
    ensures
        a == b,
    decreases a.len(),
{
    if a.len() > 0 && b.len() > 0 {
        name_le_antisymmetric(a.skip(1), b.skip(1));
        assert(a =~= seq![a[0]] + a.skip(1));
        assert(b =~= seq![b[0]] + b.skip(1));
    }
    assert(a =~= b);
}

/// The order of names carries over from neighbours.
pub proof fn name_le_transitive(a: Seq<char>, b: Seq<char>, c: Seq<char>)
    requires
        name_le(a, b),
        name_le(b, c),
    ensures
        name_le(a, c),
    decreases a.len(),
{
    if a.len() > 0 && b.len() > 0 && c.len() > 0 && a[0] == b[0] && b[0] == c[0] {
        name_le_transitive(a.skip(1), b.skip(1), c.skip(1));
    }
}

/// Whether `a` does not come after `b`.
fn not_after(a: &str, b: &str) -> (r: bool)
    ensures
        r == name_le(a@, b@),
{
    let v: Vec<char> = chars_of(a);
    let w: Vec<char> = chars_of(b);
    let mut i: usize = 0;
    assert(v@.skip(0) == v@ && w@.skip(0) == w@);
    while i < v.len() && i < w.len()
        invariant
            i <= v@.len(),
            i <= w@.len(),
            v@ == a@,
            w@ == b@,
            name_le(v@.skip(i as int), w@.skip(i as int)) == name_le(a@, b@),
        decreases v.len() - i,
    {
        if v[i] != w[i] {
            return v[i] < w[i];
        }
        assert(v@.skip(i as int).skip(1) == v@.skip(i + 1));
        assert(w@.skip(i as int).skip(1) == w@.skip(i + 1));
        i += 1;
    }
    i == v.len()
}

/// Putting `d` into a sorted list before the first file that does not come
/// before it sorts the list that `d` is in front of.
proof fn insertion_sorts(sorted: Seq<Def>, list: Seq<Def>, d: Def, pos: int)
    requires
        stable_sort_of(sorted, list),
        0 <= pos <= sorted.len(),
        forall|i: int| 0 <= i < pos ==> !name_le(d.name, (#[trigger] sorted[i]).name),
        pos < sorted.len() ==> name_le(d.name, sorted[pos].name),
    ensures
        stable_sort_of(sorted.insert(pos, d), seq![d] + list),
{
    let out = sorted.insert(pos, d);
    let input = seq![d] + list;
    let front = sorted.take(pos);
    let back = sorted.skip(pos);
    assert(out =~= front + (seq![d] + back));
    assert(sorted =~= front + back);
    assert forall|i: int, j: int| 0 <= i <= j < out.len() implies name_le(
        (#[trigger] out[i]).name,
        (#[trigger] out[j]).name,
    ) by {
        if i < pos {
            name_le_total(out[i].name, d.name);
            assert(out[i] == sorted[i]);
        }
        if i == pos && j == pos {
            name_le_reflexive(d.name);
        }
        if j > pos {
            assert(out[j] == sorted[j - 1]);
            if i == pos {
                name_le_transitive(d.name, sorted[pos].name, sorted[j - 1].name);
            }
        }
        if j < pos {
            assert(out[j] == sorted[j]);
        }
        if i > pos {
            assert(out[i] == sorted[i - 1]);
        }
    }
    assert forall|name: Seq<char>| #[trigger] named(out, name) == named(input, name) by {
        let p = |x: Def| x.name == name;
        Seq::filter_distributes_over_add(front, seq![d] + back, p);
        Seq::filter_distributes_over_add(seq![d], back, p);
        Seq::filter_distributes_over_add(front, back, p);
        Seq::filter_distributes_over_add(seq![d], list, p);
        assert(named(sorted, name) == named(list, name));
        if name == d.name {
            assert forall|i: int| 0 <= i < front.len() implies !p(#[trigger] front[i]) by {
                name_le_reflexive(d.name);
                assert(front[i] == sorted[i]);
            }
            front.lemma_all_neg_filter_empty(p);
            assert(front.filter(p) =~= Seq::empty());
        } else {
            assert(seq![d].drop_last() =~= Seq::<Def>::empty());
            reveal_with_fuel(Seq::filter, 2);
            assert(seq![d].filter(p) =~= Seq::empty());
        }
        assert(out.filter(p) =~= input.filter(p));
    }
    broadcast use vstd::seq_lib::to_multiset_insert;

    assert(input =~= list.insert(0, d));
}

/// The files by name, those of the same name in the order given.
pub fn sort_by_name(files: Vec<DefFile>) -> (r: Vec<DefFile>)
    ensures
        stable_sort_of(defs(r@), defs(files@)),
{
    let mut rest: Vec<DefFile> = files;
    let mut out: Vec<DefFile> = Vec::new();
    let ghost all = defs(files@);
    proof {
        assert(defs(rest@) == all);
        assert(all.skip(all.len() as int) =~= defs(out@));
    }
    while rest.len() > 0
        invariant
            defs(rest@) == all.take(rest@.len() as int),
            rest@.len() <= all.len(),
            stable_sort_of(defs(out@), all.skip(rest@.len() as int)),
        decreases rest.len(),
    {
        let ghost n = rest@.len() as int;
        let ghost taken = defs(rest@);
        let ghost sorted = defs(out@);
        if let Some(d) = rest.pop() {
            let mut pos: usize = 0;
            while pos < out.len() && !not_after(d.name.as_str(), out[pos].name.as_str())
                invariant
                    pos <= out@.len(),
                    sorted == defs(out@),
                    forall|i: int|
                        0 <= i < pos ==> !name_le(d@.name, (#[trigger] sorted[i]).name),
                decreases out.len() - pos,
            {
                assert(sorted[pos as int] == out@[pos as int]@);
                pos += 1;
            }
            proof {
                if pos < out@.len() {
                    assert(sorted[pos as int] == out@[pos as int]@);
                }
                insertion_sorts(sorted, all.skip(n), d@, pos as int);
                assert(taken[n - 1] == d@);
                assert(seq![d@] + all.skip(n) =~= all.skip(n - 1));
                assert(defs(rest@) =~= all.take(n - 1));
                assert(defs(out@.insert(pos as int, d)) =~= sorted.insert(pos as int, d@));
            }
            out.insert(pos, d);
        }
    }
    assert(all.skip(0) =~= all);
    out
}

} // verus!
