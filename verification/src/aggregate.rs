//! Catalog aggregation: every record of every successfully fetched
//! page, taken in page order, is filtered by the popularity floor,
//! deduplicated by identifier — a later duplicate replaces the earlier
//! one only when strictly more popular — and the surviving entries are
//! returned sorted by popularity descending.

use vstd::prelude::*;
use vstd::multiset::Multiset;
use crate::models::{PageFetch, Plugin, PluginView, RawItem, RawItemView};

verus! {

/// The identifier a raw record carries; a missing field is the empty
/// identifier, which no entry may have.
pub open spec fn item_slug(it: RawItemView) -> Seq<char> {
    match it.slug {
        Some(s) => s,
        None => Seq::empty(),
    }
}

/// The popularity a raw record carries; a missing field counts as zero.
pub open spec fn item_installs(it: RawItemView) -> i64 {
    match it.active_installs {
        Some(a) => a,
        None => 0,
    }
}

/// The display name a raw record carries; a missing field is empty.
pub open spec fn item_name(it: RawItemView) -> Seq<char> {
    match it.name {
        Some(s) => s,
        None => Seq::empty(),
    }
}

/// A record survives filtering when its identifier is non-empty and its
/// popularity reaches the floor.
pub open spec fn eligible(it: RawItemView, floor: i64) -> bool {
    item_slug(it).len() > 0 && item_installs(it) >= floor
}

/// The catalog entry a surviving record of page `page` becomes.
pub open spec fn plugin_of(page: i32, it: RawItemView) -> PluginView {
    PluginView {
        slug: item_slug(it),
        name: item_name(it),
        active_installs: item_installs(it),
        last_updated: it.last_updated,
        page,
    }
}

/// One record in merge order: the page it came from, and its fields.
pub ghost struct PageRecord {
    pub page: i32,
    pub item: RawItemView,
}

/// The records of one page's items, in item order.
pub open spec fn items_view(page: i32, items: Seq<RawItem>) -> Seq<PageRecord> {
    Seq::new(items.len(), |i: int| PageRecord { page, item: items[i]@ })
}

/// The records one page fetch contributes: none when it failed.
pub open spec fn page_view(p: PageFetch) -> Seq<PageRecord> {
    match p {
        PageFetch::Fetched { page, items } => items_view(page, items@),
        PageFetch::Failed { page } => Seq::empty(),
    }
}

/// Every record of every page, in page order then item order: the
/// order in which the merge considers them.
pub open spec fn flat_view(pages: Seq<PageFetch>) -> Seq<PageRecord>
    decreases pages.len(),
{
    if pages.len() == 0 {
        Seq::empty()
    } else {
        page_view(pages[0]) + flat_view(pages.drop_first())
    }
}

/// How one record updates the identifier-keyed map: an ineligible
/// record changes nothing; a record of an identifier already present
/// replaces the earlier entry only when strictly more popular.
pub open spec fn merge_step(
    m: Map<Seq<char>, PluginView>,
    rec: PageRecord,
    floor: i64,
) -> Map<Seq<char>, PluginView> {
    if !eligible(rec.item, floor) {
        m
    } else {
        let pv = plugin_of(rec.page, rec.item);
        if m.dom().contains(pv.slug) && m[pv.slug].active_installs >= pv.active_installs {
            m
        } else {
            m.insert(pv.slug, pv)
        }
    }
}

/// The identifier-keyed map after merging the records in order.
pub open spec fn merge_recs(recs: Seq<PageRecord>, floor: i64) -> Map<Seq<char>, PluginView>
    decreases recs.len(),
{
    if recs.len() == 0 {
        Map::empty()
    } else {
        merge_step(merge_recs(recs.drop_last(), floor), recs.last(), floor)
    }
}

/// The deduplicated catalog the given pages describe.
pub open spec fn merged_catalog(pages: Seq<PageFetch>, floor: i64) -> Map<Seq<char>, PluginView> {
    merge_recs(flat_view(pages), floor)
}

/// Popularity never increases along the sequence.
pub open spec fn sorted_desc(s: Seq<Plugin>) -> bool {
    forall|i: int, j: int|
        0 <= i <= j < s.len() ==> s[i].active_installs >= s[j].active_installs
}

/// The record an exec page/item pair stands for.
pub open spec fn rec_of(p: (i32, RawItem)) -> PageRecord {
    PageRecord { page: p.0, item: p.1@ }
}

/// The records an exec pair sequence stands for.
pub open spec fn recs_of(s: Seq<(i32, RawItem)>) -> Seq<PageRecord> {
    Seq::new(s.len(), |i: int| rec_of(s[i]))
}

fn flatten_pages(pages: Vec<PageFetch>) -> (flat: Vec<(i32, RawItem)>)
    ensures
        recs_of(flat@) == flat_view(pages@),
{
    let ghost whole = pages@;
    let mut ps = pages;
    let mut flat: Vec<(i32, RawItem)> = Vec::new();
    proof {
        assert(recs_of(flat@) + flat_view(ps@) =~= flat_view(whole));
    }
    while ps.len() > 0
        invariant
            recs_of(flat@) + flat_view(ps@) == flat_view(whole),
        decreases ps@.len(),
    {
        let ghost ps_before = ps@;
        let p = ps.remove(0);
        proof {
            assert(ps@ =~= ps_before.drop_first());
            assert(flat_view(ps_before) == page_view(p) + flat_view(ps@));
        }
        match p {
            PageFetch::Fetched { page, items } => {
                let ghost all_items = items@;
                let mut its = items;
                let total = its.len();
                let mut k: usize = 0;
                proof {
                    assert(items_view(page, all_items).skip(0) =~= items_view(page, all_items));
                    assert(recs_of(flat@) + items_view(page, all_items) + flat_view(ps@)
                        =~= flat_view(whole));
                }
                while its.len() > 0
                    invariant
                        total == all_items.len(),
                        all_items.len() == k + its@.len(),
                        its@ == all_items.skip(k as int),
                        recs_of(flat@) + items_view(page, all_items).skip(k as int) + flat_view(
                            ps@,
                        ) == flat_view(whole),
                        k <= all_items.len(),
                    decreases its@.len(),
                {
                    let ghost flat_before = flat@;
                    let it = its.remove(0);
                    flat.push((page, it));
                    proof {
                        assert(its@ =~= all_items.skip(k + 1));
                        assert(recs_of(flat@) =~= recs_of(flat_before).push(
                            PageRecord { page, item: it@ },
                        ));
                        assert(items_view(page, all_items).skip(k as int)[0] == (PageRecord {
                            page,
                            item: all_items[k as int]@,
                        }));
                        assert(recs_of(flat_before).push(PageRecord { page, item: it@ })
                            + items_view(page, all_items).skip(k + 1) + flat_view(ps@)
                            =~= recs_of(flat_before) + items_view(page, all_items).skip(k as int)
                            + flat_view(ps@));
                    }
                    k = k + 1;
                }
                proof {
                    assert(items_view(page, all_items).skip(k as int) =~= Seq::<
                        PageRecord,
                    >::empty());
                    assert(recs_of(flat@) + flat_view(ps@) =~= recs_of(flat@) + items_view(
                        page,
                        all_items,
                    ).skip(k as int) + flat_view(ps@));
                }
            },
            PageFetch::Failed { page } => {
                proof {
                    assert(recs_of(flat@) + flat_view(ps@) =~= recs_of(flat@) + (Seq::<
                        PageRecord,
                    >::empty() + flat_view(ps@)));
                }
            },
        }
    }
    proof {
        assert(flat_view(ps@) =~= Seq::<PageRecord>::empty());
        assert(recs_of(flat@) =~= recs_of(flat@) + flat_view(ps@));
    }
    flat
}

/// Identifiers are pairwise distinct along the sequence.
pub open spec fn unique_slugs(s: Seq<Plugin>) -> bool {
    forall|i: int, j: int|
        #![trigger s[i]@.slug, s[j]@.slug]
        0 <= i < j < s.len() ==> s[i]@.slug != s[j]@.slug
}

/// `acc` holds exactly the entries of `m`: identifiers are unique, every
/// entry is `m`'s value at its identifier, and every identifier of `m`
/// appears.
pub open spec fn acc_matches(acc: Seq<Plugin>, m: Map<Seq<char>, PluginView>) -> bool {
    &&& forall|i: int, j: int| 0 <= i < j < acc.len() ==> acc[i]@.slug != acc[j]@.slug
    &&& forall|i: int|
        0 <= i < acc.len() ==> m.dom().contains(#[trigger] acc[i]@.slug) && m[acc[i]@.slug]
            == acc[i]@
    &&& forall|s: Seq<char>|
        #[trigger] m.dom().contains(s) ==> exists|i: int| 0 <= i < acc.len() && acc[i]@.slug == s
}

fn find_slug(acc: &Vec<Plugin>, slug: &String) -> (r: Option<usize>)
    ensures
        match r {
            Some(j) => j < acc@.len() && acc@[j as int]@.slug == slug@,
            None => forall|i: int| 0 <= i < acc@.len() ==> acc@[i]@.slug != slug@,
        },
{
    let mut i: usize = 0;
    while i < acc.len()
        invariant
            i <= acc@.len(),
            forall|k: int| 0 <= k < i ==> acc@[k]@.slug != slug@,
        decreases acc@.len() - i,
    {
        let p = &acc[i];
        if p.slug == *slug {
            return Some(i);
        }
        i = i + 1;
    }
    None
}

fn merge_flat(flat: Vec<(i32, RawItem)>, floor: i64) -> (acc: Vec<Plugin>)
    ensures
        acc_matches(acc@, merge_recs(recs_of(flat@), floor)),
{
    let mut acc: Vec<Plugin> = Vec::new();
    let mut i: usize = 0;
    proof {
        assert(recs_of(flat@).take(0) =~= Seq::<PageRecord>::empty());
    }
    while i < flat.len()
        invariant
            i <= flat@.len(),
            acc_matches(acc@, merge_recs(recs_of(flat@).take(i as int), floor)),
        decreases flat@.len() - i,
    {
        let ghost m_prev = merge_recs(recs_of(flat@).take(i as int), floor);
        let ghost rec = recs_of(flat@)[i as int];
        proof {
            assert(recs_of(flat@).take(i + 1).drop_last() =~= recs_of(flat@).take(i as int));
            assert(recs_of(flat@).take(i + 1).last() == rec);
            assert(merge_recs(recs_of(flat@).take(i + 1), floor) == merge_step(
                m_prev,
                rec,
                floor,
            ));
        }
        let ghost m_next = merge_recs(recs_of(flat@).take(i + 1), floor);
        let page = flat[i].0;
        let it = &flat[i].1;
        let slug: String = match &it.slug {
            Some(s) => s.clone(),
            None => String::new(),
        };
        let installs: i64 = match &it.active_installs {
            Some(a) => *a,
            None => 0,
        };
        proof {
            assert(slug@ == item_slug(rec.item));
            assert(installs == item_installs(rec.item));
        }
        if slug.as_str().is_empty() || installs < floor {
            proof {
                assert(!eligible(rec.item, floor));
                assert(m_next == m_prev);
            }
        } else {
            proof {
                assert(eligible(rec.item, floor));
            }
            let name: String = match &it.name {
                Some(s) => s.clone(),
                None => String::new(),
            };
            let last_updated: Option<String> = match &it.last_updated {
                Some(s) => Some(s.clone()),
                None => None,
            };
            let found = find_slug(&acc, &slug);
            let entry = Plugin { slug, name, active_installs: installs, last_updated, page };
            proof {
                assert(entry@ == plugin_of(rec.page, rec.item));
            }
            match found {
                Some(j) => {
                    let keep = {
                        let prev_entry = &acc[j];
                        installs <= prev_entry.active_installs
                    };
                    if keep {
                        proof {
                            assert(m_prev.dom().contains(entry@.slug));
                            assert(m_prev[entry@.slug] == acc@[j as int]@);
                            assert(m_next == m_prev);
                        }
                    } else {
                        let ghost acc_old = acc@;
                        acc[j] = entry;
                        proof {
                            assert(m_next == m_prev.insert(acc_old[j as int]@.slug, entry@));
                            assert(acc@ == acc_old.update(j as int, entry));
                            assert forall|a: int, b: int| 0 <= a < b < acc@.len() implies acc@[a]@.slug
                                != acc@[b]@.slug by {
                                assert(acc_old[a]@.slug != acc_old[b]@.slug);
                                assert(acc@[a]@.slug == acc_old[a]@.slug || (a == j
                                    && acc@[a]@.slug == acc_old[j as int]@.slug));
                                assert(acc@[b]@.slug == acc_old[b]@.slug || (b == j
                                    && acc@[b]@.slug == acc_old[j as int]@.slug));
                            }
                            assert forall|a: int|
                                0 <= a < acc@.len() implies m_next.dom().contains(
                                #[trigger] acc@[a]@.slug,
                            ) && m_next[acc@[a]@.slug] == acc@[a]@ by {
                                if a == j {
                                } else {
                                    assert(acc@[a] == acc_old[a]);
                                    assert(acc_old[a]@.slug != acc_old[j as int]@.slug);
                                    assert(m_prev.dom().contains(acc_old[a]@.slug));
                                }
                            }
                            assert forall|s: Seq<char>| #[trigger]
                                m_next.dom().contains(s) implies exists|a: int|
                                0 <= a < acc@.len() && acc@[a]@.slug == s by {
                                if s == acc_old[j as int]@.slug {
                                    assert(acc@[j as int]@.slug == s);
                                } else {
                                    assert(m_prev.dom().contains(s));
                                    let a = choose|a: int|
                                        0 <= a < acc_old.len() && acc_old[a]@.slug == s;
                                    assert(acc@[a]@.slug == s);
                                }
                            }
                        }
                    }
                },
                None => {
                    let ghost acc_old = acc@;
                    acc.push(entry);
                    proof {
                        assert(!m_prev.dom().contains(entry@.slug));
                        assert(m_next == m_prev.insert(entry@.slug, entry@));
                        assert(acc@ == acc_old.push(entry));
                        assert forall|a: int, b: int| 0 <= a < b < acc@.len() implies acc@[a]@.slug
                            != acc@[b]@.slug by {
                            if b == acc_old.len() as int {
                                assert(acc@[a] == acc_old[a]);
                            } else {
                                assert(acc@[a] == acc_old[a]);
                                assert(acc@[b] == acc_old[b]);
                            }
                        }
                        assert forall|a: int|
                            0 <= a < acc@.len() implies m_next.dom().contains(
                            #[trigger] acc@[a]@.slug,
                        ) && m_next[acc@[a]@.slug] == acc@[a]@ by {
                            if a == acc_old.len() as int {
                            } else {
                                assert(acc@[a] == acc_old[a]);
                                assert(m_prev.dom().contains(acc_old[a]@.slug));
                                assert(acc_old[a]@.slug != entry@.slug);
                            }
                        }
                        assert forall|s: Seq<char>| #[trigger]
                            m_next.dom().contains(s) implies exists|a: int|
                            0 <= a < acc@.len() && acc@[a]@.slug == s by {
                            if s == entry@.slug {
                                assert(acc@[acc_old.len() as int]@.slug == s);
                            } else {
                                assert(m_prev.dom().contains(s));
                                let a = choose|a: int|
                                    0 <= a < acc_old.len() && acc_old[a]@.slug == s;
                                assert(acc@[a]@.slug == s);
                            }
                        }
                    }
                },
            }
        }
        i = i + 1;
    }
    proof {
        assert(recs_of(flat@).take(flat@.len() as int) =~= recs_of(flat@));
    }
    acc
}

fn max_installs_index(v: &Vec<Plugin>) -> (m: usize)
    requires
        v@.len() > 0,
    ensures
        m < v@.len(),
        forall|j: int| 0 <= j < v@.len() ==> v@[m as int].active_installs >= v@[j].active_installs,
{
    let mut m: usize = 0;
    let mut i: usize = 1;
    while i < v.len()
        invariant
            m < i <= v@.len(),
            forall|j: int| 0 <= j < i ==> v@[m as int].active_installs >= v@[j].active_installs,
        decreases v@.len() - i,
    {
        if v[i].active_installs > v[m].active_installs {
            m = i;
        }
        i = i + 1;
    }
    m
}

fn sort_by_installs(v: Vec<Plugin>) -> (r: Vec<Plugin>)
    requires
        unique_slugs(v@),
    ensures
        r@.len() == v@.len(),
        sorted_desc(r@),
        unique_slugs(r@),
        forall|a: int| #![trigger r@[a]] 0 <= a < r@.len() ==> v@.contains(r@[a]),
        forall|b: int| #![trigger v@[b]] 0 <= b < v@.len() ==> r@.contains(v@[b]),
{
    broadcast use vstd::seq_lib::group_to_multiset_ensures;
    broadcast use vstd::multiset::group_multiset_axioms;

    let mut rest = v;
    let mut out: Vec<Plugin> = Vec::new();
    let ghost whole = rest@;
    proof {
        assert(out@.to_multiset() =~= Multiset::<Plugin>::empty()) by {
            out@.to_multiset_ensures();
        }
        assert(out@.to_multiset().add(rest@.to_multiset()) =~= whole.to_multiset());
    }
    while rest.len() > 0
        invariant
            out@.len() + rest@.len() == whole.len(),
            sorted_desc(out@),
            forall|a: int, b: int|
                0 <= a < out@.len() && 0 <= b < rest@.len() ==> out@[a].active_installs
                    >= rest@[b].active_installs,
            out@.to_multiset().add(rest@.to_multiset()) == whole.to_multiset(),
        decreases rest@.len(),
    {
        let m = max_installs_index(&rest);
        let ghost rest_old = rest@;
        let ghost out_old = out@;
        let x = rest.remove(m);
        out.push(x);
        proof {
            broadcast use vstd::seq_lib::group_to_multiset_ensures;
            broadcast use vstd::multiset::group_multiset_axioms;

            assert(rest_old[m as int] == x);
            assert(rest_old.contains(x));
            assert(rest_old.to_multiset().count(x) > 0);
            assert(rest@.to_multiset() =~= rest_old.to_multiset().remove(x));
            assert(out@.to_multiset() =~= out_old.to_multiset().insert(x));
            assert(out@.to_multiset().add(rest@.to_multiset()) =~= whole.to_multiset());
            assert forall|a: int, b: int|
                0 <= a <= b < out@.len() implies out@[a].active_installs
                >= out@[b].active_installs by {
                if b < out_old.len() {
                } else {
                    assert(out@[b] == x);
                    if a < out_old.len() {
                        assert(out@[a].active_installs >= rest_old[m as int].active_installs);
                    }
                }
            }
        }
    }
    proof {
        assert(rest@.to_multiset().len() == 0);
        assert(rest@.to_multiset() =~= Multiset::<Plugin>::empty());
        assert(out@.to_multiset() =~= whole.to_multiset());
        assert forall|a: int| #![trigger out@[a]] 0 <= a < out@.len() implies whole.contains(
            out@[a],
        ) by {
            assert(out@.to_multiset().count(out@[a]) > 0);
            assert(whole.to_multiset().count(out@[a]) > 0);
        }
        assert forall|b: int| #![trigger whole[b]] 0 <= b < whole.len() implies out@.contains(
            whole[b],
        ) by {
            assert(whole.to_multiset().count(whole[b]) > 0);
            assert(out@.to_multiset().count(whole[b]) > 0);
        }
        assert(whole.no_duplicates()) by {
            assert forall|i: int, j: int|
                0 <= i < whole.len() && 0 <= j < whole.len() && i != j implies whole[i]
                != whole[j] by {
                if i < j {
                    assert(whole[i]@.slug != whole[j]@.slug);
                } else {
                    assert(whole[j]@.slug != whole[i]@.slug);
                }
            }
        }
        whole.lemma_multiset_has_no_duplicates();
        out@.lemma_multiset_has_no_duplicates_conv();
        assert forall|i: int, j: int|
            #![trigger out@[i]@.slug, out@[j]@.slug]
            0 <= i < j < out@.len() implies out@[i]@.slug != out@[j]@.slug by {
            assert(out@[i] != out@[j]);
            assert(whole.contains(out@[i]));
            assert(whole.contains(out@[j]));
            let b1 = choose|b: int| 0 <= b < whole.len() && whole[b] == out@[i];
            let b2 = choose|b: int| 0 <= b < whole.len() && whole[b] == out@[j];
            assert(b1 != b2);
            if b1 < b2 {
                assert(whole[b1]@.slug != whole[b2]@.slug);
            } else {
                assert(whole[b2]@.slug != whole[b1]@.slug);
            }
        }
    }
    out
}

/// For every identifier of the merged catalog, the entry kept dominates
/// every eligible occurrence of that identifier, and it is itself the
/// earliest occurrence carrying the maximum popularity: a later
/// duplicate only ever displaced an earlier, strictly less popular one.
pub open spec fn occurrence(recs: Seq<PageRecord>, floor: i64, slug: Seq<char>, k: int) -> bool {
    0 <= k < recs.len() && eligible(recs[k].item, floor) && item_slug(recs[k].item) == slug
}

/// Every value of the merged catalog sits at its own identifier, has a
/// non-empty identifier, and reaches the popularity floor.
pub proof fn lemma_merged_values_eligible(recs: Seq<PageRecord>, floor: i64)
    ensures
        forall|s: Seq<char>| #[trigger]
            merge_recs(recs, floor).dom().contains(s) ==> merge_recs(recs, floor)[s].slug == s
                && merge_recs(recs, floor)[s].active_installs >= floor && s.len() > 0,
    decreases recs.len(),
{
    if recs.len() > 0 {
        lemma_merged_values_eligible(recs.drop_last(), floor);
    }
}

/// Deduplication keeps, for each identifier, exactly the first record
/// that attains the maximum popularity seen for it: the identifier is
/// present exactly when some eligible record carries it; its entry is
/// one such record's; no eligible record is more popular; and every
/// earlier eligible record is strictly less popular.
pub proof fn lemma_dedup_keeps_first_max(recs: Seq<PageRecord>, floor: i64, slug: Seq<char>)
    ensures
        merge_recs(recs, floor).dom().contains(slug) <==> exists|k: int|
            occurrence(recs, floor, slug, k),
        merge_recs(recs, floor).dom().contains(slug) ==> exists|k: int|
            {
                &&& #[trigger] occurrence(recs, floor, slug, k)
                &&& merge_recs(recs, floor)[slug] == plugin_of(recs[k].page, recs[k].item)
                &&& forall|j: int|
                    occurrence(recs, floor, slug, j) ==> item_installs(recs[j].item)
                        <= item_installs(recs[k].item)
                &&& forall|j: int|
                    occurrence(recs, floor, slug, j) && j < k ==> item_installs(recs[j].item)
                        < item_installs(recs[k].item)
            },
    decreases recs.len(),
{
    if recs.len() == 0 {
        assert(!merge_recs(recs, floor).dom().contains(slug));
        assert(forall|k: int| !occurrence(recs, floor, slug, k));
    } else {
        let prefix = recs.drop_last();
        let rec = recs.last();
        let n = recs.len() as int;
        lemma_dedup_keeps_first_max(prefix, floor, slug);
        let m_prev = merge_recs(prefix, floor);
        let m = merge_recs(recs, floor);
        assert(m == merge_step(m_prev, rec, floor));
        assert(forall|k: int|
            0 <= k < n - 1 ==> (occurrence(recs, floor, slug, k) <==> occurrence(
                prefix,
                floor,
                slug,
                k,
            )));
        if eligible(rec.item, floor) && item_slug(rec.item) == slug {
            assert(occurrence(recs, floor, slug, n - 1));
            let pv = plugin_of(rec.page, rec.item);
            if m_prev.dom().contains(slug) && m_prev[slug].active_installs
                >= pv.active_installs {
                assert(m == m_prev);
                let k = choose|k: int|
                    {
                        &&& #[trigger] occurrence(prefix, floor, slug, k)
                        &&& m_prev[slug] == plugin_of(prefix[k].page, prefix[k].item)
                        &&& forall|j: int|
                            occurrence(prefix, floor, slug, j) ==> item_installs(prefix[j].item)
                                <= item_installs(prefix[k].item)
                        &&& forall|j: int|
                            occurrence(prefix, floor, slug, j) && j < k ==> item_installs(
                                prefix[j].item,
                            ) < item_installs(prefix[k].item)
                    };
                assert(occurrence(recs, floor, slug, k));
                assert(m[slug] == plugin_of(recs[k].page, recs[k].item));
                assert forall|j: int|
                    occurrence(recs, floor, slug, j) implies item_installs(recs[j].item)
                    <= item_installs(recs[k].item) by {
                    if j < n - 1 {
                        assert(occurrence(prefix, floor, slug, j));
                    } else {
                        assert(item_installs(recs[j].item) == pv.active_installs);
                        assert(m_prev[slug].active_installs == item_installs(recs[k].item));
                    }
                }
                assert forall|j: int|
                    occurrence(recs, floor, slug, j) && j < k implies item_installs(recs[j].item)
                    < item_installs(recs[k].item) by {
                    assert(occurrence(prefix, floor, slug, j));
                }
            } else {
                assert(m == m_prev.insert(slug, pv));
                assert(m[slug] == pv);
                let k = n - 1;
                assert forall|j: int|
                    occurrence(recs, floor, slug, j) && j < k implies item_installs(recs[j].item)
                    < item_installs(recs[k].item) by {
                    assert(occurrence(prefix, floor, slug, j));
                    assert(m_prev.dom().contains(slug));
                    let w = choose|w: int|
                        {
                            &&& #[trigger] occurrence(prefix, floor, slug, w)
                            &&& m_prev[slug] == plugin_of(prefix[w].page, prefix[w].item)
                            &&& forall|j2: int|
                                occurrence(prefix, floor, slug, j2) ==> item_installs(
                                    prefix[j2].item,
                                ) <= item_installs(prefix[w].item)
                        };
                    assert(item_installs(prefix[j].item) <= item_installs(prefix[w].item));
                    assert(m_prev[slug].active_installs < pv.active_installs);
                }
                assert forall|j: int|
                    occurrence(recs, floor, slug, j) implies item_installs(recs[j].item)
                    <= item_installs(recs[k].item) by {
                    if j < n - 1 {
                        assert(occurrence(recs, floor, slug, j) && j < k);
                    }
                }
            }
        } else {
            assert(forall|k: int|
                occurrence(recs, floor, slug, k) <==> occurrence(prefix, floor, slug, k));
            if eligible(rec.item, floor) {
                assert(m == merge_step(m_prev, rec, floor));
                assert(item_slug(rec.item) != slug);
                assert(m.dom().contains(slug) <==> m_prev.dom().contains(slug));
                if m.dom().contains(slug) {
                    assert(m[slug] == m_prev[slug]);
                }
            } else {
                assert(m == m_prev);
            }
            if m.dom().contains(slug) {
                let k = choose|k: int|
                    {
                        &&& #[trigger] occurrence(prefix, floor, slug, k)
                        &&& m_prev[slug] == plugin_of(prefix[k].page, prefix[k].item)
                        &&& forall|j: int|
                            occurrence(prefix, floor, slug, j) ==> item_installs(prefix[j].item)
                                <= item_installs(prefix[k].item)
                        &&& forall|j: int|
                            occurrence(prefix, floor, slug, j) && j < k ==> item_installs(
                                prefix[j].item,
                            ) < item_installs(prefix[k].item)
                    };
                assert(occurrence(recs, floor, slug, k));
                assert(m[slug] == plugin_of(recs[k].page, recs[k].item));
                assert(forall|j: int|
                    occurrence(recs, floor, slug, j) ==> item_installs(recs[j].item)
                        <= item_installs(recs[k].item));
                assert(forall|j: int|
                    occurrence(recs, floor, slug, j) && j < k ==> item_installs(recs[j].item)
                        < item_installs(recs[k].item));
            }
        }
    }
}

/// Aggregates the fetched pages into the catalog: records below the
/// popularity floor or without an identifier are dropped, duplicates
/// are merged keeping the first record attaining the maximum
/// popularity, and the result is sorted by popularity descending —
/// exactly the entries of [`merged_catalog`], each at its identifier.
#[verifier::rlimit(60)]
pub fn aggregate_popular(pages: Vec<PageFetch>, min_active: i64) -> (r: Vec<Plugin>)
    ensures
        sorted_desc(r@),
        unique_slugs(r@),
        forall|i: int|
            0 <= i < r@.len() ==> merged_catalog(pages@, min_active).dom().contains(
                #[trigger] r@[i]@.slug,
            ) && merged_catalog(pages@, min_active)[r@[i]@.slug] == r@[i]@,
        forall|s: Seq<char>| #[trigger]
            merged_catalog(pages@, min_active).dom().contains(s) ==> exists|i: int|
                0 <= i < r@.len() && r@[i]@.slug == s,
        forall|i: int|
            0 <= i < r@.len() ==> r@[i].active_installs >= min_active && r@[i]@.slug.len() > 0,
{
    let flat = flatten_pages(pages);
    let acc = merge_flat(flat, min_active);
    let ghost m = merged_catalog(pages@, min_active);
    proof {
        lemma_merged_values_eligible(flat_view(pages@), min_active);
    }
    let r = sort_by_installs(acc);
    proof {
        assert forall|i: int|
            0 <= i < r@.len() implies m.dom().contains(#[trigger] r@[i]@.slug) && m[r@[i]@.slug]
            == r@[i]@ by {
            assert(acc@.contains(r@[i]));
            let b = choose|b: int| 0 <= b < acc@.len() && acc@[b] == r@[i];
            assert(m.dom().contains(acc@[b]@.slug));
        }
        assert forall|s: Seq<char>| #[trigger]
            m.dom().contains(s) implies exists|i: int| 0 <= i < r@.len() && r@[i]@.slug == s by {
            let b = choose|b: int| 0 <= b < acc@.len() && acc@[b]@.slug == s;
            assert(r@.contains(acc@[b]));
            let a = choose|a: int| 0 <= a < r@.len() && r@[a] == acc@[b];
            assert(r@[a]@.slug == s);
        }
        assert forall|i: int|
            0 <= i < r@.len() implies r@[i].active_installs >= min_active && r@[i]@.slug.len()
            > 0 by {
            assert(m.dom().contains(r@[i]@.slug));
            assert(m[r@[i]@.slug] == r@[i]@);
        }
    }
    r
}

} // verus!
