//! The countries that a catalog covers.

use vstd::prelude::*;
use vstd::relations::{strongly_connected, transitive};
use vstd::utf8::encode_utf8;
use crate::order::{
    insertion_point, lemma_stable_sorted_ascends, lemma_stable_sorted_len,
    lemma_stable_sorted_permutes, stable_sorted,
};
use crate::relay::Relay;
use crate::text::{lemma_lex_total, lemma_lex_transitive, name_le, text_eq, text_le};

verus! {

/// A country of the catalog.
#[derive(Clone, Debug)]
pub struct Country {
    pub code: String,
    pub name: String,
}

impl View for Country {
    type V = (Seq<char>, Seq<char>);

    /// The code and the name.
    open spec fn view(&self) -> (Seq<char>, Seq<char>) {
        (self.code@, self.name@)
    }
}

/// The code and name of each country of a list.
pub open spec fn country_views(list: Seq<Country>) -> Seq<(Seq<char>, Seq<char>)> {
    list.map_values(|c: Country| c@)
}

/// The code and name of the country of a relay.
pub open spec fn country_of(relay: Relay) -> (Seq<char>, Seq<char>) {
    (relay.country_code@, relay.country_name@)
}

/// The countries of a catalog, each once, in the order in which the catalog
/// first names them.
pub open spec fn distinct_countries(catalog: Seq<Relay>) -> Seq<(Seq<char>, Seq<char>)>
    decreases catalog.len(),
{
    if catalog.len() == 0 {
        Seq::empty()
    } else {
        let before = distinct_countries(catalog.drop_last());
        let country = country_of(catalog.last());
        if before.contains(country) {
            before
        } else {
            before.push(country)
        }
    }
}

/// Whether some relay of the catalog lies in `country`.
pub open spec fn covers(catalog: Seq<Relay>, country: (Seq<char>, Seq<char>)) -> bool {
    exists|i: int| 0 <= i < catalog.len() && country_of(#[trigger] catalog[i]) == country
}

/// The order of the country list: by name.
pub open spec fn by_name() -> spec_fn((Seq<char>, Seq<char>), (Seq<char>, Seq<char>)) -> bool {
    |a: (Seq<char>, Seq<char>), b: (Seq<char>, Seq<char>)| name_le(a.1, b.1)
}

/// The country list of a catalog: its countries, each once, in ascending
/// order of their names; countries of the same name in the order in which
/// the catalog first names them.
pub open spec fn country_list(catalog: Seq<Relay>) -> Seq<(Seq<char>, Seq<char>)> {
    stable_sorted(distinct_countries(catalog), by_name())
}

/// The order by name is a total preorder.
pub proof fn lemma_by_name_total_preorder()
    ensures
        transitive(by_name()),
        strongly_connected(by_name()),
{
    assert forall|x: (Seq<char>, Seq<char>), y: (Seq<char>, Seq<char>)| #[trigger]
        by_name()(x, y) || #[trigger] by_name()(y, x) by {
        lemma_lex_total(encode_utf8(x.1), encode_utf8(y.1));
    }
    assert forall|
        x: (Seq<char>, Seq<char>),
        y: (Seq<char>, Seq<char>),
        z: (Seq<char>, Seq<char>),
    | #[trigger] by_name()(x, y) && #[trigger] by_name()(y, z) implies by_name()(x, z) by {
        lemma_lex_transitive(encode_utf8(x.1), encode_utf8(y.1), encode_utf8(z.1));
    }
}

/// `distinct_countries` holds the country of every relay, holds nothing
/// else, and holds nothing twice.
pub proof fn lemma_distinct_countries(catalog: Seq<Relay>)
    ensures
        forall|i: int|
            0 <= i < catalog.len() ==> distinct_countries(catalog).contains(
                country_of(#[trigger] catalog[i]),
            ),
        forall|k: int|
            0 <= k < distinct_countries(catalog).len() ==> covers(
                catalog,
                #[trigger] distinct_countries(catalog)[k],
            ),
        distinct_countries(catalog).no_duplicates(),
    decreases catalog.len(),
{
    if catalog.len() > 0 {
        let rest = catalog.drop_last();
        let before = distinct_countries(rest);
        let country = country_of(catalog.last());
        let all = distinct_countries(catalog);
        lemma_distinct_countries(rest);
        assert forall|i: int| 0 <= i < catalog.len() implies all.contains(
            country_of(#[trigger] catalog[i]),
        ) by {
            if i < rest.len() {
                assert(rest[i] == catalog[i]);
                let k = choose|k: int| 0 <= k < before.len() && before[k] == country_of(rest[i]);
                assert(all[k] == before[k]);
            } else if before.contains(country) {
            } else {
                assert(all[before.len() as int] == country);
            }
        }
        assert forall|k: int| 0 <= k < all.len() implies covers(catalog, #[trigger] all[k]) by {
            if k < before.len() {
                assert(covers(rest, before[k]));
                let i = choose|i: int|
                    0 <= i < rest.len() && country_of(#[trigger] rest[i]) == before[k];
                assert(country_of(catalog[i]) == all[k]);
            } else {
                assert(country_of(catalog[catalog.len() - 1]) == all[k]);
            }
        }
    }
}

/// The country list names every country of the catalog and no other, names
/// none twice, and ascends by name.
pub proof fn country_list_is_complete_distinct_and_ascending(catalog: Seq<Relay>)
    ensures
        forall|i: int|
            0 <= i < catalog.len() ==> country_list(catalog).contains(
                country_of(#[trigger] catalog[i]),
            ),
        forall|k: int|
            0 <= k < country_list(catalog).len() ==> covers(
                catalog,
                #[trigger] country_list(catalog)[k],
            ),
        forall|k: int, m: int|
            0 <= k < m < country_list(catalog).len() ==> country_list(catalog)[k] != country_list(
                catalog,
            )[m],
        forall|k: int, m: int|
            0 <= k <= m < country_list(catalog).len() ==> name_le(
                country_list(catalog)[k].1,
                country_list(catalog)[m].1,
            ),
{
    broadcast use vstd::seq_lib::group_to_multiset_ensures;

    let distinct = distinct_countries(catalog);
    let list = country_list(catalog);
    lemma_distinct_countries(catalog);
    lemma_by_name_total_preorder();
    lemma_stable_sorted_ascends(distinct, by_name());
    lemma_stable_sorted_permutes(distinct, by_name());
    lemma_stable_sorted_len(distinct, by_name());
    assert forall|i: int| 0 <= i < catalog.len() implies list.contains(
        country_of(#[trigger] catalog[i]),
    ) by {
        assert(distinct.contains(country_of(catalog[i])));
        assert(distinct.to_multiset().count(country_of(catalog[i])) > 0);
    }
    assert forall|k: int| 0 <= k < list.len() implies covers(catalog, #[trigger] list[k]) by {
        assert(list.contains(list[k]));
        assert(list.to_multiset().count(list[k]) > 0);
        assert(distinct.contains(list[k]));
        let d = choose|d: int| 0 <= d < distinct.len() && distinct[d] == list[k];
        assert(covers(catalog, distinct[d]));
    }
    distinct.lemma_multiset_has_no_duplicates();
    list.lemma_multiset_has_no_duplicates_conv();
    assert forall|k: int, m: int| 0 <= k <= m < list.len() implies name_le(
        list[k].1,
        list[m].1,
    ) by {
        if k < m {
            assert(by_name()(list[k], list[m]));
        } else {
            assert(by_name()(list[k], list[k]) || by_name()(list[k], list[k]));
        }
    }
}

/// Whether `list` names the country with this code and name.
fn names(list: &Vec<Country>, code: &str, name: &str) -> (found: bool)
    ensures
        found == country_views(list@).contains((code@, name@)),
{
    let mut i: usize = 0;
    while i < list.len()
        invariant
            i <= list.len(),
            forall|j: int| 0 <= j < i ==> country_views(list@)[j] != (code@, name@),
        decreases list.len() - i,
    {
        if text_eq(list[i].code.as_str(), code) && text_eq(list[i].name.as_str(), name) {
            assert(country_views(list@)[i as int] == (code@, name@));
            return true;
        }
        i += 1;
    }
    false
}

/// Puts `item` into the sorted `sorted`, behind every country whose name
/// does not come after its own.
fn place(sorted: &mut Vec<Country>, item: Country)
    ensures
        country_views(final(sorted)@) == country_views(old(sorted)@).insert(
            insertion_point(country_views(old(sorted)@), item@, by_name()),
            item@,
        ),
{
    let ghost views = country_views(sorted@);
    let mut pos: usize = sorted.len();
    proof {
        assert(views.take(pos as int) =~= views);
    }
    while pos > 0 && !text_le(sorted[pos - 1].name.as_str(), item.name.as_str())
        invariant
            pos <= sorted.len(),
            sorted@ == old(sorted)@,
            views == country_views(sorted@),
            insertion_point(views, item@, by_name()) == insertion_point(
                views.take(pos as int),
                item@,
                by_name(),
            ),
        decreases pos,
    {
        proof {
            assert(views.take(pos as int).drop_last() =~= views.take(pos - 1));
        }
        pos -= 1;
    }
    sorted.insert(pos, item);
}

/// The countries that the catalog covers, each once, in ascending order of
/// their names.
pub fn list_countries(server_data: &Vec<Relay>) -> (countries: Vec<Country>)
    ensures
        country_views(countries@) == country_list(server_data@),
{
    let mut distinct: Vec<Country> = Vec::new();
    let mut i: usize = 0;
    while i < server_data.len()
        invariant
            i <= server_data.len(),
            country_views(distinct@) == distinct_countries(server_data@.take(i as int)),
        decreases server_data.len() - i,
    {
        let relay = &server_data[i];
        proof {
            assert(server_data@.take(i + 1).drop_last() =~= server_data@.take(i as int));
        }
        if !names(&distinct, relay.country_code.as_str(), relay.country_name.as_str()) {
            distinct.push(
                Country { code: relay.country_code.clone(), name: relay.country_name.clone() },
            );
        }
        i += 1;
    }
    proof {
        assert(server_data@.take(server_data.len() as int) =~= server_data@);
    }
    let ghost all = country_views(distinct@);
    let mut sorted: Vec<Country> = Vec::new();
    while distinct.len() > 0
        invariant
            distinct.len() <= all.len(),
            country_views(distinct@) == all.skip(all.len() - distinct.len()),
            country_views(sorted@) == stable_sorted(all.take(all.len() - distinct.len()), by_name()),
        decreases distinct.len(),
    {
        let ghost done = all.len() - distinct.len();
        let ghost before = distinct@;
        let item = distinct.remove(0);
        proof {
            assert(item@ == country_views(before)[0]);
            assert(all.take(done + 1).drop_last() =~= all.take(done));
            assert forall|j: int| 0 <= j < distinct.len() implies country_views(distinct@)[j]
                == all.skip(done + 1)[j] by {
                assert(country_views(before)[j + 1] == all.skip(done)[j + 1]);
            }
        }
        place(&mut sorted, item);
    }
    proof {
        assert(all.take(all.len() as int) =~= all);
    }
    sorted
}

} // verus!
