//! What holds of a walk through definition files: it finds every definition file
//! below its start, each of them once, and hands them out in one order only.
use vstd::multiset::Multiset;
use vstd::prelude::*;

use crate::definitions::{by_name, chosen_folder, defs, name_le, name_le_antisymmetric, named};
use crate::definitions::{stable_sort_of, text_view, xml_extension, Def, DefFile, WalkState};
use crate::text::{ascii_lower, ascii_lowered, trimmed};

verus! {

/// A folder with its entries in the order in which they are listed, or a file.
pub ghost enum Node {
    Folder(Seq<Node>),
    File { extension: Option<Seq<char>>, def: Def },
}

/// The definition files at or below a node.
pub open spec fn xml_below(node: Node) -> Multiset<Def>
    decreases node,
{
    match node {
        Node::Folder(entries) => xml_below_all(entries),
        Node::File { extension, def } => if xml_extension(extension) {
            Multiset::singleton(def)
        } else {
            Multiset::empty()
        },
    }
}

/// The definition files at or below any of some nodes.
pub open spec fn xml_below_all(nodes: Seq<Node>) -> Multiset<Def>
    decreases nodes,
{
    if nodes.len() == 0 {
        Multiset::empty()
    } else {
        xml_below_all(nodes.drop_last()).add(xml_below(nodes.last()))
    }
}

/// The nodes at or below a node.
pub open spec fn size(node: Node) -> nat
    decreases node,
{
    match node {
        Node::Folder(entries) => 1 + size_all(entries),
        Node::File { .. } => 1,
    }
}

/// The nodes at or below any of some nodes.
pub open spec fn size_all(nodes: Seq<Node>) -> nat
    decreases nodes,
{
    if nodes.len() == 0 {
        0
    } else {
        size_all(nodes.drop_last()) + size(nodes.last())
    }
}

/// The walk after the entries of one folder: a folder among them is queued, a
/// definition file is recorded, and any other file is passed over.
pub open spec fn visit(state: WalkState<Node>, entries: Seq<Node>) -> WalkState<Node>
    decreases entries.len(),
{
    if entries.len() == 0 {
        state
    } else {
        let before = visit(state, entries.drop_last());
        match entries.last() {
            Node::Folder(_) => before.queue(entries.last()),
            Node::File { extension, def } => if xml_extension(extension) {
                before.record(def)
            } else {
                before
            },
        }
    }
}

/// The entries of a node.
pub open spec fn entries_of(node: Node) -> Seq<Node> {
    match node {
        Node::Folder(entries) => entries,
        Node::File { .. } => Seq::empty(),
    }
}

/// The walk when no folder is left to list.
pub open spec fn walked(state: WalkState<Node>) -> WalkState<Node>
    decreases size_all(state.pending),
{
    if state.pending.len() == 0 {
        state
    } else {
        proof {
            visit_accounts(state.unqueue(), entries_of(state.pending.last()));
            last_accounts(state.pending);
        }
        walked(visit(state.unqueue(), entries_of(state.pending.last())))
    }
}

/// What lies below some nodes is what lies below all but the last, and below the
/// entries of the last.
pub proof fn last_accounts(nodes: Seq<Node>)
    requires
        nodes.len() > 0,
    ensures
        size_all(nodes) == size_all(nodes.drop_last()) + 1 + size_all(entries_of(nodes.last())),
        nodes.last() is Folder ==> xml_below_all(nodes) == xml_below_all(nodes.drop_last()).add(
            xml_below_all(entries_of(nodes.last())),
        ),
{
    reveal_with_fuel(size_all, 3);
    reveal_with_fuel(size, 3);
    reveal_with_fuel(xml_below_all, 3);
    reveal_with_fuel(xml_below, 3);
}

/// Visiting entries moves what lies below them to what is found or queued.
pub proof fn visit_accounts(state: WalkState<Node>, entries: Seq<Node>)
    ensures
        size_all(visit(state, entries).pending) <= size_all(state.pending) + size_all(entries),
        visit(state, entries).found.to_multiset().add(xml_below_all(visit(state, entries).pending))
            == state.found.to_multiset().add(xml_below_all(state.pending)).add(
            xml_below_all(entries),
        ),
    decreases entries.len(),
{
    let start = state.found.to_multiset().add(xml_below_all(state.pending));
    let after = visit(state, entries);
    let sum = after.found.to_multiset().add(xml_below_all(after.pending));
    if entries.len() == 0 {
        assert(sum =~= start.add(xml_below_all(entries)));
    } else {
        let last = entries.last();
        let before = visit(state, entries.drop_last());
        let part = before.found.to_multiset().add(xml_below_all(before.pending));
        visit_accounts(state, entries.drop_last());
        match last {
            Node::Folder(_) => {
                let longer = before.pending.push(last);
                assert(after == before.queue(last));
                assert(longer.drop_last() =~= before.pending);
                assert(longer.last() == last);
                assert(size_all(longer) == size_all(before.pending) + size(last));
                assert(xml_below_all(longer) == xml_below_all(before.pending).add(xml_below(last)));
            },
            Node::File { extension, def } => {
                reveal_with_fuel(xml_below, 2);
                if xml_extension(extension) {
                    before.found.to_multiset_ensures();
                    assert(before.found.push(def).to_multiset() =~= before.found.to_multiset().add(
                        Multiset::singleton(def),
                    ));
                    assert(after == before.record(def));
                }
            },
        }
        assert(sum =~= part.add(xml_below(last)));
        assert(sum =~= start.add(xml_below_all(entries)));
    }
}

/// A walk to its end finds what it had found and what lies below the folders
/// that were queued.
proof fn walk_accounts(state: WalkState<Node>)
    requires
        forall|i: int| 0 <= i < state.pending.len() ==> #[trigger] state.pending[i] is Folder,
    ensures
        walked(state).pending.len() == 0,
        walked(state).found.to_multiset() == state.found.to_multiset().add(
            xml_below_all(state.pending),
        ),
    decreases size_all(state.pending),
{
    if state.pending.len() == 0 {
        assert(state.found.to_multiset() =~= state.found.to_multiset().add(
            xml_below_all(state.pending),
        ));
    } else {
        let last = state.pending.last();
        last_accounts(state.pending);
        let next = visit(state.unqueue(), entries_of(last));
        visit_accounts(state.unqueue(), entries_of(last));
        visit_queues_folders(state.unqueue(), entries_of(last));
        assert(last is Folder);
        walk_accounts(next);
        assert(walked(state).found.to_multiset() =~= state.found.to_multiset().add(
            xml_below_all(state.pending),
        ));
    }
}

/// Only folders are queued.
proof fn visit_queues_folders(state: WalkState<Node>, entries: Seq<Node>)
    requires
        forall|i: int| 0 <= i < state.pending.len() ==> #[trigger] state.pending[i] is Folder,
    ensures
        ({
            let after = visit(state, entries);
            forall|i: int| 0 <= i < after.pending.len() ==> #[trigger] after.pending[i] is Folder
        }),
    decreases entries.len(),
{
    if entries.len() > 0 {
        visit_queues_folders(state, entries.drop_last());
    }
}

/// The walk from a folder comes to an end, and then it has found every
/// definition file at or below the folder, each of them once and no other. So
/// has what is handed out in the end.
pub proof fn every_definition_is_found(entries: Seq<Node>, handed_out: Seq<Def>)
    requires
        stable_sort_of(handed_out, walked(WalkState::start(Node::Folder(entries))).found),
    ensures
        walked(WalkState::start(Node::Folder(entries))).pending.len() == 0,
        handed_out.to_multiset() == xml_below(Node::Folder(entries)),
{
    let root = Node::Folder(entries);
    let state = WalkState::start(root);
    walk_accounts(state);
    assert(state.pending.drop_last() =~= Seq::<Node>::empty());
    state.found.to_multiset_ensures();
    assert(state.found.to_multiset() =~= Multiset::empty());
    last_accounts(state.pending);
    reveal_with_fuel(xml_below, 3);
    reveal_with_fuel(xml_below_all, 3);
    assert(xml_below_all(state.pending) =~= xml_below(root));
    assert(walked(state).found.to_multiset() =~= xml_below(root));
}

/// The first file of a list is the first of those that have its name.
proof fn first_of_its_name(list: Seq<Def>)
    requires
        list.len() > 0,
    ensures
        named(list, list[0].name) == seq![list[0]] + named(list.skip(1), list[0].name),
        forall|name: Seq<char>|
            name != list[0].name ==> #[trigger] named(list, name) == named(list.skip(1), name),
{
    let first = list[0];
    assert(list =~= seq![first] + list.skip(1));
    assert forall|name: Seq<char>|
        true implies #[trigger] named(list, name) == (if name == first.name {
        seq![first]
    } else {
        Seq::empty()
    }) + named(list.skip(1), name) by {
        let p = |d: Def| d.name == name;
        Seq::filter_distributes_over_add(seq![first], list.skip(1), p);
        reveal_with_fuel(Seq::filter, 2);
        assert(seq![first].drop_last() =~= Seq::<Def>::empty());
        assert(seq![first].filter(p) =~= (if name == first.name {
            seq![first]
        } else {
            Seq::empty()
        }));
    }
    assert forall|name: Seq<char>| name != first.name implies #[trigger] named(list, name) == named(
        list.skip(1),
        name,
    ) by {
        assert(named(list, name) =~= named(list.skip(1), name));
    }
}

/// A file of a sorted list comes no earlier than the first one.
proof fn first_is_least(list: Seq<Def>, d: Def)
    requires
        by_name(list),
        list.to_multiset().contains(d),
    ensures
        list.len() > 0,
        name_le(list[0].name, d.name),
{
    list.to_multiset_ensures();
    assert(list.contains(d));
    let i = choose|i: int| 0 <= i < list.len() && list[i] == d;
    assert(name_le(list[0].name, list[i].name));
}

/// There is one way only to hand out a list of files by name: two results agree.
pub proof fn sorting_has_one_result(a: Seq<Def>, b: Seq<Def>, list: Seq<Def>)
    requires
        stable_sort_of(a, list),
        stable_sort_of(b, list),
    ensures
        a == b,
{
    assert forall|name: Seq<char>| #[trigger] named(a, name) == named(b, name) by {
        assert(named(a, name) == named(list, name));
        assert(named(b, name) == named(list, name));
    }
    sorted_alike(a, b);
}

/// Sorted lists with the same files of every name are the same.
proof fn sorted_alike(a: Seq<Def>, b: Seq<Def>)
    requires
        by_name(a),
        by_name(b),
        a.to_multiset() == b.to_multiset(),
        forall|name: Seq<char>| #[trigger] named(a, name) == named(b, name),
    ensures
        a == b,
    decreases a.len(),
{
    a.to_multiset_ensures();
    b.to_multiset_ensures();
    assert(a.len() == b.len());
    if a.len() == 0 {
        assert(a =~= b);
    } else {
        assert(a.contains(a[0]) && b.contains(b[0]));
        first_is_least(b, a[0]);
        first_is_least(a, b[0]);
        name_le_antisymmetric(a[0].name, b[0].name);
        let name = a[0].name;
        first_of_its_name(a);
        first_of_its_name(b);
        assert(named(a, name)[0] == a[0]);
        assert(named(b, name)[0] == b[0]);
        assert(a[0] == b[0]);
        let x = a.skip(1);
        let y = b.skip(1);
        assert forall|n: Seq<char>| #[trigger] named(x, n) == named(y, n) by {
            assert(named(a, n) == named(b, n));
            if n == name {
                assert(named(x, n) =~= named(a, n).skip(1));
                assert(named(y, n) =~= named(b, n).skip(1));
            }
        }
        assert(x =~= a.remove(0));
        assert(y =~= b.remove(0));
        assert(x.to_multiset() =~= a.to_multiset().remove(a[0]));
        assert(y.to_multiset() =~= b.to_multiset().remove(b[0]));
        assert forall|i: int, j: int| 0 <= i <= j < x.len() implies name_le(
            (#[trigger] x[i]).name,
            (#[trigger] x[j]).name,
        ) by {
            assert(x[i] == a[i + 1] && x[j] == a[j + 1]);
        }
        assert forall|i: int, j: int| 0 <= i <= j < y.len() implies name_le(
            (#[trigger] y[i]).name,
            (#[trigger] y[j]).name,
        ) by {
            assert(y[i] == b[i + 1] && y[j] == b[j + 1]);
        }
        sorted_alike(x, y);
        assert(a =~= seq![a[0]] + x);
        assert(b =~= seq![b[0]] + y);
    }
}

/// An extension marks a definition file if and only if it is the three letters of
/// `xml`, each in either case.
pub proof fn xml_by_letters(extension: Option<Seq<char>>)
    ensures
        extension is None ==> !xml_extension(extension),
        extension matches Some(e) ==> (xml_extension(extension) <==> {
            &&& e.len() == 3
            &&& e[0] == 'x' || e[0] == 'X'
            &&& e[1] == 'm' || e[1] == 'M'
            &&& e[2] == 'l' || e[2] == 'L'
        }),
{
    reveal_strlit("xml");
    if let Some(e) = extension {
        let low = ascii_lowered(e);
        assert(low.len() == e.len());
        assert("xml"@.len() == 3);
        if low == "xml"@ {
            assert(low[0] == ascii_lower(e[0]));
            assert(low[1] == ascii_lower(e[1]));
            assert(low[2] == ascii_lower(e[2]));
        }
        if e.len() == 3 && (e[0] == 'x' || e[0] == 'X') && (e[1] == 'm' || e[1] == 'M') && (e[2]
            == 'l' || e[2] == 'L') {
            assert(low =~= "xml"@);
        }
    }
}

/// A file below a folder is found by the walk if and only if its extension is `xml`
/// in any case, and then with its own name and text.
pub proof fn only_xml_is_found(extension: Option<Seq<char>>, def: Def)
    ensures
        ({
            let is_xml = extension matches Some(e) && e.len() == 3 && (e[0] == 'x' || e[0] == 'X')
                && (e[1] == 'm' || e[1] == 'M') && (e[2] == 'l' || e[2] == 'L');
            xml_below(Node::File { extension, def }) == (if is_xml {
                Multiset::singleton(def)
            } else {
                Multiset::empty()
            })
        }),
{
    xml_by_letters(extension);
    reveal_with_fuel(xml_below, 2);
}

/// A text that may be missing is seen as it is.
pub proof fn missing_texts_are_seen(text: String)
    ensures
        text_view(Some(text)) == Some(text@),
        text_view(None) is None,
{
}

/// A folder that is given is taken without the white space around it; where nothing
/// is left of it, or none is given, the one that is set is taken as it is.
pub proof fn folder_is_chosen_in_order(given: String, set: String)
    ensures
        trimmed(given@).len() > 0 ==> chosen_folder(Some(given), Some(set)) == Some(
            trimmed(given@),
        ),
        trimmed(given@).len() > 0 ==> chosen_folder(Some(given), None) == Some(trimmed(given@)),
        trimmed(given@).len() == 0 ==> chosen_folder(Some(given), Some(set)) == Some(set@),
        trimmed(given@).len() == 0 ==> chosen_folder(Some(given), None) is None,
        chosen_folder(None, Some(set)) == Some(set@),
        chosen_folder(None, None) is None,
{
}

/// A definition file is seen with its own name and text, and a list of them file by
/// file.
pub proof fn files_are_seen_whole(files: Seq<DefFile>, i: int)
    requires
        0 <= i < files.len(),
    ensures
        files[i]@.name == files[i].name@,
        files[i]@.xml == files[i].xml@,
        defs(files).len() == files.len(),
        defs(files)[i] == files[i]@,
{
}

/// The steps of a walk: it starts with one folder and nothing found; a folder is
/// queued and taken at the end of those that are pending; a file is recorded behind
/// those that were found.
pub proof fn walk_by_step<P>(state: WalkState<P>, folder: P, def: Def)
    ensures
        WalkState::start(folder).pending == seq![folder],
        WalkState::start(folder).found == Seq::<Def>::empty(),
        state.queue(folder).pending == state.pending.push(folder),
        state.queue(folder).found == state.found,
        state.record(def).pending == state.pending,
        state.record(def).found == state.found.push(def),
        state.queue(folder).unqueue() == state,
        state.unqueue().found == state.found,
{
    assert(state.queue(folder).unqueue().pending =~= state.pending);
}

/// The order of names goes by the first characters that differ: the name with the
/// lesser code point comes first, and a name comes before every longer one that
/// starts with it.
pub proof fn names_by_first_difference(a: Seq<char>, b: Seq<char>, c: char, d: char)
    ensures
        name_le(Seq::empty(), b),
        !name_le(a.push(c), Seq::empty()),
        name_le(seq![c] + a, seq![c] + b) == name_le(a, b),
        (c as int) < (d as int) ==> name_le(seq![c] + a, seq![d] + b) && !name_le(
            seq![d] + b,
            seq![c] + a,
        ),
{
    assert((seq![c] + a).skip(1) =~= a);
    assert((seq![c] + b).skip(1) =~= b);
}

/// What is handed out is what was found, each file once; no file stands before one
/// whose name comes earlier; and the files of one name stand in the order in which
/// they were found.
pub proof fn handed_out_in_order(
    sorted: Seq<Def>,
    list: Seq<Def>,
    i: int,
    j: int,
    name: Seq<char>,
)
    requires
        stable_sort_of(sorted, list),
        0 <= i < j < sorted.len(),
    ensures
        sorted.len() == list.len(),
        sorted.to_multiset() == list.to_multiset(),
        name_le(sorted[i].name, sorted[j].name),
        sorted.filter(|d: Def| d.name == name) == list.filter(|d: Def| d.name == name),
{
    sorted.to_multiset_ensures();
    list.to_multiset_ensures();
    assert(named(sorted, name) == named(list, name));
}

/// What lies below a folder is what lies below each of its entries.
pub proof fn folders_hold_their_entries(entries: Seq<Node>, entry: Node)
    ensures
        xml_below(Node::Folder(Seq::empty())) == Multiset::<Def>::empty(),
        xml_below(Node::Folder(entries.push(entry))) == xml_below(Node::Folder(entries)).add(
            xml_below(entry),
        ),
{
    reveal_with_fuel(xml_below, 3);
    reveal_with_fuel(xml_below_all, 3);
    assert(entries.push(entry).drop_last() =~= entries);
}

} // verus!
