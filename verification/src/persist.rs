//! The registry as it is kept in its file: each operation reads the file's
//! contents, and one that changes the registry gives the contents that
//! replace them.

use crate::records::{
    lemma_parsed_storable, lemma_records_push, lemma_rendered_lines, lemma_round_trip,
    lemma_storable_record, parsed, record_of, record_text, records, rendered, storable,
};
use crate::registry::{
    ascending_names, in_order, lemma_in_order, lemma_orderable_empty, lemma_orderable_insert,
    lemma_orderable_remove, listed, mapping, names, orderable, services_in, Pair, Registry,
};
use crate::resolve::text_of;
use crate::text::lines;
use vstd::prelude::*;

verus! {

/// The pairs that a registry file holds; none where there is no file.
pub open spec fn loaded(contents: Option<Seq<char>>) -> Set<Pair> {
    match contents {
        Some(text) => parsed(text),
        None => Set::empty(),
    }
}

/// The contents of the file that holds `pairs`: a line for each, in ascending order.
pub open spec fn saved(pairs: Set<Pair>) -> Seq<char> {
    rendered(in_order(pairs))
}

/// Reads the registry from the contents of its file. `None` stands for a
/// file that is not there or cannot be read, and gives an empty registry.
pub fn load_registry(contents: Option<&str>) -> (r: Registry)
    ensures
        r.well_formed(),
        r.pairs() == loaded(text_of(contents)),
{
    match contents {
        Some(text) => Registry::parse(text),
        None => Registry::new(),
    }
}

/// The contents of the file that holds the registry.
pub fn save_registry(registry: &Registry) -> (r: String)
    requires
        registry.well_formed(),
    ensures
        r@ == saved(registry.pairs()),
{
    proof {
        registry.lemma_ordered();
    }
    registry.render()
}

/// Lists `service` for `account` in the registry that the file holds, and
/// gives the new contents of the file.
pub fn registry_add(contents: Option<&str>, account: &str, service: &str) -> (r: String)
    ensures
        r@ == saved(loaded(text_of(contents)).insert((account@, service@))),
{
    let mut registry = load_registry(contents);
    registry.insert(account, service);
    save_registry(&registry)
}

/// Takes `service` away from `account` in the registry that the file holds.
/// Where the account is in the registry, gives the new contents of the
/// file, in which the account stands no more if this was its last service.
/// Where it is not, gives `None`: the file is left as it is.
pub fn registry_remove(contents: Option<&str>, account: &str, service: &str) -> (r: Option<String>)
    ensures
        r is Some == mapping(loaded(text_of(contents))).contains_key(account@),
        r is Some ==> r->0@ == saved(loaded(text_of(contents)).remove((account@, service@))),
{
    let mut registry = load_registry(contents);
    if registry.remove(account, service) {
        Some(save_registry(&registry))
    } else {
        None
    }
}

/// The services that the file lists for `account`, in ascending order; none
/// where the account is not in the registry.
pub fn registry_list(contents: Option<&str>, account: &str) -> (r: Vec<String>)
    ensures
        ascending_names(names(r@)),
        names(r@).to_set() == services_in(mapping(loaded(text_of(contents))), account@),
        names(r@) == listed(in_order(loaded(text_of(contents))), account@),
        !mapping(loaded(text_of(contents))).contains_key(account@) ==> r@.len() == 0,
{
    let registry = load_registry(contents);
    proof {
        registry.lemma_ordered();
    }
    registry.services(account)
}

/// The pairs that a file holds are orderable.
pub proof fn lemma_records_orderable(ls: Seq<Seq<char>>)
    ensures
        orderable(records(ls)),
    decreases ls.len(),
{
    if ls.len() == 0 {
        assert(records(ls) =~= Set::<Pair>::empty());
        lemma_orderable_empty();
    } else {
        lemma_records_orderable(ls.drop_last());
        lemma_records_push(ls.drop_last(), ls.last());
        assert(ls == ls.drop_last().push(ls.last()));
        match record_of(ls.last()) {
            Some(p) => {
                lemma_orderable_insert(records(ls.drop_last()), p);
            },
            None => {},
        }
    }
}

/// What is loaded from a file, or from no file, is orderable.
pub proof fn lemma_loaded_orderable(contents: Option<Seq<char>>)
    ensures
        orderable(loaded(contents)),
{
    match contents {
        Some(text) => {
            lemma_records_orderable(lines(text));
        },
        None => {
            lemma_orderable_empty();
        },
    }
}

/// Saving storable pairs and reading the file again gives the same pairs.
pub proof fn lemma_saved_round_trip(pairs: Set<Pair>)
    requires
        orderable(pairs),
        forall|p: Pair| pairs.contains(p) ==> storable(p),
    ensures
        parsed(saved(pairs)) == pairs,
{
    lemma_in_order(pairs);
    let o = in_order(pairs);
    assert forall|i: int| 0 <= i < o.len() implies storable(#[trigger] o[i]) by {
        assert(o.contains(o[i]));
        assert(o.to_set().contains(o[i]));
    }
    lemma_round_trip(o);
}

/// What a file holds is unchanged by saving it and reading it again: the
/// lines that hold no record are gone, the pairs are the same.
pub proof fn lemma_load_save_load(contents: Option<Seq<char>>)
    ensures
        parsed(saved(loaded(contents))) == loaded(contents),
{
    lemma_loaded_orderable(contents);
    assert forall|p: Pair| loaded(contents).contains(p) implies storable(p) by {
        lemma_parsed_storable(contents->0, p);
    }
    lemma_saved_round_trip(loaded(contents));
}

/// A line that holds no record is not written back: every line of the
/// saved file holds a pair that was read, but for the empty line after the
/// last line feed.
pub proof fn lemma_save_drops_malformed(contents: Option<Seq<char>>, line: Seq<char>)
    requires
        record_of(line) is None,
        line.len() > 0,
    ensures
        !lines(saved(loaded(contents))).contains(line),
{
    let pairs = loaded(contents);
    lemma_loaded_orderable(contents);
    lemma_in_order(pairs);
    let o = in_order(pairs);
    assert forall|i: int| 0 <= i < o.len() implies storable(#[trigger] o[i]) by {
        assert(o.contains(o[i]));
        assert(o.to_set().contains(o[i]));
        lemma_parsed_storable(contents->0, o[i]);
    }
    assert forall|i: int| 0 <= i < o.len() implies !record_text(#[trigger] o[i]).contains(
        '\n',
    ) by {
        lemma_storable_record(o[i]);
    }
    lemma_rendered_lines(o);
    let ls = lines(saved(pairs));
    if ls.contains(line) {
        let i = choose|i: int| 0 <= i < ls.len() && ls[i] == line;
        if i < o.len() {
            lemma_storable_record(o[i]);
        }
    }
}

/// The pairs in the file after `service` was added for `account` and then
/// removed again, starting from a file with the given contents.
pub open spec fn added_then_removed(
    contents: Option<Seq<char>>,
    account: Seq<char>,
    service: Seq<char>,
) -> Set<Pair> {
    let added = saved(loaded(contents).insert((account, service)));
    if mapping(parsed(added)).contains_key(account) {
        parsed(saved(parsed(added).remove((account, service))))
    } else {
        parsed(added)
    }
}

/// After a service was added for an account and removed again, the file
/// does not list it for the account. Where the pair is storable and the
/// file listed no other service for the account, the account is not in the
/// registry any more.
pub proof fn lemma_add_then_remove(
    contents: Option<Seq<char>>,
    account: Seq<char>,
    service: Seq<char>,
)
    ensures
        !added_then_removed(contents, account, service).contains((account, service)),
        !services_in(mapping(added_then_removed(contents, account, service)), account).contains(
            service,
        ),
        storable((account, service)) && (forall|s: Seq<char>|
            loaded(contents).contains((account, s)) ==> s == service) ==> !mapping(
            added_then_removed(contents, account, service),
        ).contains_key(account),
{
    let target = (account, service);
    let before = loaded(contents);
    let added = saved(before.insert(target));
    let held = parsed(added);
    let after = added_then_removed(contents, account, service);
    lemma_records_orderable(lines(added));
    assert forall|p: Pair| held.contains(p) implies storable(p) by {
        lemma_parsed_storable(added, p);
    }
    if mapping(held).contains_key(account) {
        lemma_orderable_remove(held, target);
        lemma_saved_round_trip(held.remove(target));
        assert(after == held.remove(target));
    } else {
        assert(!held.contains(target));
    }
    assert(!after.contains(target));
    if storable(target) && (forall|s: Seq<char>| before.contains((account, s)) ==> s == service) {
        lemma_loaded_orderable(contents);
        lemma_orderable_insert(before, target);
        assert forall|p: Pair| before.insert(target).contains(p) implies storable(p) by {
            if p != target {
                lemma_parsed_storable(contents->0, p);
            }
        }
        lemma_saved_round_trip(before.insert(target));
        assert(held == before.insert(target));
        assert(held.contains(target));
        assert(mapping(held).contains_key(account));
        if mapping(after).contains_key(account) {
            let s = choose|s: Seq<char>| after.contains((account, s));
            assert(before.contains((account, s)));
        }
    }
}

} // verus!
