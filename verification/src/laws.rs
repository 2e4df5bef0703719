//! What holds of the edits on every store: each statement is proved from
//! the definitions that the contracts of the operations use.

use crate::errors::Failure;
use crate::address_laws::law_address_is_read_back;
use crate::hostentry::{group_at, host_record, Record};
use crate::hostfile::{
    added_one, count_address, count_deleted, first_named, first_related, first_touching, related, touches,
    updated, without_address, without_name, Store,
};
use crate::ipaddr::{address_of, IpAddress};
use crate::text::{
    byte_length, ends_with_dot, is_space, law_trimmed_keeps_a_core, lemma_shortest_upto, shortest,
    without_text,
};
use crate::utils::Modifications;
use vstd::prelude::*;

verus! {

/// A name is no strict subdomain of its own strict subdomain.
pub proof fn lemma_no_mutual_subdomains(a: Seq<char>, b: Seq<char>)
    ensures
        !(ends_with_dot(a, b) && ends_with_dot(b, a)),
        !ends_with_dot(a, a),
{
}

/// Whether `after` has the records of `before`, but for the one at `k`.
pub open spec fn differ_at_most_at(before: Seq<Record>, after: Seq<Record>, k: int) -> bool {
    &&& after.len() == before.len()
    &&& forall|i: int| 0 <= i < before.len() && i != k ==> #[trigger] after[i] == before[i]
}

/// Whether `after` is `before` with at most one record changed in its
/// place, or with one record appended.
pub open spec fn one_record_apart(before: Seq<Record>, after: Seq<Record>) -> bool {
    ||| exists|k: int| differ_at_most_at(before, after, k)
    ||| (after.len() == before.len() + 1 && after.drop_last() == before)
}

/// Where the record at `k` is the first that touches the pair, the scan from
/// any position up to `k` finds `k`.
proof fn lemma_first_touching(rs: Seq<Record>, hostname: Seq<char>, ip: IpAddress, i: int, k: int)
    requires
        0 <= i <= k < rs.len(),
        forall|j: int| 0 <= j < k ==> !touches(#[trigger] rs[j], hostname, ip),
        touches(rs[k], hostname, ip),
    ensures
        first_touching(rs, hostname, ip, i) == k,
    decreases k - i,
{
    if i < k {
        lemma_first_touching(rs, hostname, ip, i + 1, k);
    }
}

/// The scan for a name ends at the first record of that name, or at the end
/// where no record has it.
pub proof fn law_first_named_is_least(rs: Seq<Record>, hostname: Seq<char>, i: int)
    requires
        0 <= i <= rs.len(),
    ensures
        i <= first_named(rs, hostname, i) <= rs.len(),
        forall|j: int| i <= j < first_named(rs, hostname, i) ==> (#[trigger] rs[j]).name != Some(hostname),
        first_named(rs, hostname, i) < rs.len() ==> rs[first_named(rs, hostname, i)].name == Some(
            hostname,
        ),
    decreases rs.len() - i,
{
    if i < rs.len() && rs[i].name != Some(hostname) {
        law_first_named_is_least(rs, hostname, i + 1);
    }
}

/// What is left of a list without `t` holds texts of the list only, and not
/// `t`.
proof fn lemma_without_text(a: Seq<Seq<char>>, t: Seq<char>)
    ensures
        !without_text(a, t).contains(t),
        forall|x: Seq<char>| #[trigger] without_text(a, t).contains(x) ==> a.contains(x),
        forall|x: Seq<char>| #[trigger] a.contains(x) && x != t ==> without_text(a, t).contains(x),
    decreases a.len(),
{
    if a.len() > 0 {
        let front = a.drop_last();
        let rest = without_text(front, t);
        let all = without_text(a, t);
        lemma_without_text(front, t);
        assert forall|x: Seq<char>| #[trigger] all.contains(x) implies a.contains(x) by {
            let m = choose|m: int| 0 <= m < all.len() && all[m] == x;
            if m < rest.len() {
                assert(rest[m] == x);
                assert(rest.contains(x));
                assert(front.contains(x));
                let j = choose|j: int| 0 <= j < front.len() && front[j] == x;
                assert(a[j] == x);
            } else {
                assert(a[a.len() - 1] == x);
            }
        }
        assert forall|x: Seq<char>| #[trigger] a.contains(x) && x != t implies all.contains(x) by {
            let j = choose|j: int| 0 <= j < a.len() && a[j] == x;
            if j < a.len() - 1 {
                assert(front[j] == x);
                assert(front.contains(x));
                assert(rest.contains(x));
                let m = choose|m: int| 0 <= m < rest.len() && rest[m] == x;
                assert(all[m] == x);
            } else {
                assert(all == rest.push(x));
                assert(all[rest.len() as int] == x);
            }
        }
        if all.contains(t) {
            let m = choose|m: int| 0 <= m < all.len() && all[m] == t;
            if m < rest.len() {
                assert(rest[m] == t);
                assert(rest.contains(t));
            }
        }
    }
}

/// A line of an address, a tab and a name comes back as it was: where the
/// first group of a host line is the text that an address is written as,
/// the second is a name without white space at its ends, and no alias or
/// comment group took part, the record has that address and that name and
/// renders as the address, a tab and the name.
pub proof fn law_plain_host_line_round_trip(
    groups: Seq<Option<Seq<char>>>,
    name: Seq<char>,
    ip: IpAddress,
)
    requires
        group_at(groups, 1) == Some(ip.text()),
        group_at(groups, 2) == Some(name),
        group_at(groups, 4) is None,
        group_at(groups, 6) is None,
        name.len() > 0 ==> !is_space(name[0]) && !is_space(name[name.len() - 1]),
    ensures
        host_record(groups) == (Record {
            ip: Some(ip),
            name: Some(name),
            aliasses: None,
            comment: None,
        }),
        host_record(groups).render() =~= ip.text() + "\t"@ + name,
{
    law_address_is_read_back(ip);
    law_trimmed_keeps_a_core(name);
}

/// Adding a name with an address to a store without records succeeds: one
/// record is added, and it is the only one, with that address and name.
pub proof fn law_add_to_empty_store(s: Store, hostname: Seq<char>, text: Seq<char>, ip: IpAddress)
    requires
        s.list().len() == 0,
        address_of(text) == Some(ip),
    ensures
        s.added(hostname, Some(text)) == Ok::<(Store, Modifications), Failure>(
            (
                s.with(seq![Record { ip: Some(ip), name: Some(hostname), aliasses: None, comment: None }]),
                added_one(),
            ),
        ),
{
    assert(s.list().push(
        Record { ip: Some(ip), name: Some(hostname), aliasses: None, comment: None },
    ) =~= seq![Record { ip: Some(ip), name: Some(hostname), aliasses: None, comment: None }]);
}

/// Adding a subdomain of a record's name under the record's address makes
/// it an alias of that record: where the record at `k` is the first that has
/// the address or knows the name, has the address and does not know the name
/// yet, the store keeps its length, only that record changes, by one more
/// alias, and one update is counted.
pub proof fn law_add_subdomain_appends_alias(s: Store, k: int, hostname: Seq<char>, ip: IpAddress)
    requires
        0 <= k < s.list().len(),
        forall|j: int| 0 <= j < k ==> !touches(#[trigger] s.list()[j], hostname, ip),
        s.list()[k].has_ip(ip),
        s.list()[k].can_resolve_host(hostname),
        !s.list()[k].has_name(hostname),
    ensures
        s.add_with_address(hostname, ip) == Ok::<(Store, Modifications), Failure>(
            (s.with(s.list().update(k, s.list()[k].with_alias(hostname))), updated(1)),
        ),
        s.list().update(k, s.list()[k].with_alias(hostname)).len() == s.list().len(),
{
    lemma_first_touching(s.list(), hostname, ip, 0, k);
    lemma_no_mutual_subdomains(hostname, s.list()[k].name->0);
}

/// Adding a parent domain of a record's name under the record's address
/// promotes: where the record at `k` is the first that has the address or
/// knows the name, has the address and does not know the name yet, it is
/// renamed to the parent, its former name is among its aliases, no record is
/// added, and one update is counted.
pub proof fn law_add_parent_promotes(s: Store, k: int, hostname: Seq<char>, ip: IpAddress)
    requires
        0 <= k < s.list().len(),
        forall|j: int| 0 <= j < k ==> !touches(#[trigger] s.list()[j], hostname, ip),
        s.list()[k].has_ip(ip),
        s.list()[k].can_hostname_resolve_domain(hostname),
        !s.list()[k].has_name(hostname),
    ensures
        s.add_with_address(hostname, ip) == Ok::<(Store, Modifications), Failure>(
            (s.with(s.list().update(k, s.list()[k].promoted(hostname))), updated(1)),
        ),
        s.list()[k].promoted(hostname).name == Some(hostname),
        s.list()[k].promoted(hostname).alias_list().contains(s.list()[k].name->0),
        s.list()[k].promoted(hostname).ip == Some(ip),
        s.list().update(k, s.list()[k].promoted(hostname)).len() == s.list().len(),
{
    lemma_first_touching(s.list(), hostname, ip, 0, k);
    let r = s.list()[k];
    let list = r.promoted(hostname).alias_list();
    assert(list == r.alias_list().push(r.name->0));
    assert(list[list.len() - 1] == r.name->0);
}

/// A subdomain and its parent, added under one address to a store without
/// records, end as one record named as the parent with the subdomain for its
/// only alias, whichever of the two is added first.
pub proof fn law_insertion_order(s: Store, child: Seq<char>, parent: Seq<char>, ip: IpAddress)
    requires
        s.list().len() == 0,
        ends_with_dot(child, parent),
    ensures
        ({
            let end = s.with(
                seq![
                    Record {
                        ip: Some(ip),
                        name: Some(parent),
                        aliasses: Some(seq![child]),
                        comment: None,
                    },
                ],
            );
            &&& s.add_with_address(child, ip) is Ok
            &&& s.add_with_address(child, ip)->Ok_0.0.add_with_address(parent, ip) == Ok::<
                (Store, Modifications),
                Failure,
            >((end, updated(1)))
            &&& s.add_with_address(parent, ip) is Ok
            &&& s.add_with_address(parent, ip)->Ok_0.0.add_with_address(child, ip) == Ok::<
                (Store, Modifications),
                Failure,
            >((end, updated(1)))
        }),
{
    lemma_no_mutual_subdomains(child, parent);
    let small = Record { ip: Some(ip), name: Some(child), aliasses: None, comment: None };
    let large = Record { ip: Some(ip), name: Some(parent), aliasses: None, comment: None };
    let both = Record {
        ip: Some(ip),
        name: Some(parent),
        aliasses: Some(seq![child]),
        comment: None,
    };
    assert(s.list().push(small) =~= seq![small]);
    assert(s.list().push(large) =~= seq![large]);
    assert(child != parent);
    assert(small.alias_list() =~= Seq::<Seq<char>>::empty());
    assert(large.alias_list() =~= Seq::<Seq<char>>::empty());
    assert(Seq::<Seq<char>>::empty().push(child) =~= seq![child]);
    assert(!small.has_name(parent));
    assert(!large.has_name(child));
    assert(small.promoted(parent) == both);
    assert(large.with_alias(child) == both);
    assert(seq![small].update(0, both) =~= seq![both]);
    assert(seq![large].update(0, both) =~= seq![both]);
    let first = s.with(seq![small]);
    let second = s.with(seq![large]);
    assert(first.list() == seq![small]);
    assert(second.list() == seq![large]);
    assert(first.with(seq![both]) == s.with(seq![both]));
    assert(second.with(seq![both]) == s.with(seq![both]));
}

/// Deleting an address leaves exactly the records that do not have it, in
/// their order, a record without an address among them; as many records
/// leave as the tally counts.
pub proof fn law_delete_address(rs: Seq<Record>, ip: IpAddress)
    ensures
        without_address(rs, ip) == rs.filter(|r: Record| r.ip != Some(ip)),
        forall|i: int| 0 <= i < without_address(rs, ip).len() ==> !(#[trigger] without_address(rs, ip)[i]).has_ip(ip),
        forall|i: int| 0 <= i < rs.len() && !(#[trigger] rs[i]).has_ip(ip) ==> without_address(rs, ip).contains(rs[i]),
        without_address(rs, ip).len() + count_address(rs, ip) == rs.len(),
    decreases rs.len(),
{
    reveal(Seq::filter);
    let keep = |r: Record| r.ip != Some(ip);
    if rs.len() > 0 {
        let rest = without_address(rs.drop_last(), ip);
        law_delete_address(rs.drop_last(), ip);
        assert forall|i: int| 0 <= i < rs.len() && !(#[trigger] rs[i]).has_ip(ip) implies without_address(
            rs,
            ip,
        ).contains(rs[i]) by {
            if i < rs.len() - 1 {
                assert(rs.drop_last()[i] == rs[i]);
                let m = choose|m: int| 0 <= m < rest.len() && rest[m] == rs[i];
                assert(without_address(rs, ip)[m] == rs[i]);
            } else {
                assert(without_address(rs, ip)[rest.len() as int] == rs[i]);
            }
        }
    }
}

/// Deleting the name of a record that has aliases keeps the record: the
/// first shortest alias, by length in bytes, becomes the name, address and
/// comment stay, and the new name stands among the aliases no more. Where the
/// deleted name was not itself among the aliases, the record knows it no
/// more.
pub proof fn law_delete_name_promotes_shortest_alias(r: Record, name: Seq<char>)
    requires
        r.name == Some(name),
        r.alias_list().len() > 0,
    ensures
        !r.can_delete(name),
        without_name(seq![r], name) == seq![r.without(name)],
        ({
            let k = shortest(r.alias_list());
            &&& 0 <= k < r.alias_list().len()
            &&& r.without(name).name == Some(r.alias_list()[k])
            &&& forall|j: int|
                0 <= j < r.alias_list().len() ==> byte_length(r.alias_list()[k]) <= byte_length(
                    #[trigger] r.alias_list()[j],
                )
            &&& forall|j: int|
                0 <= j < k ==> byte_length(r.alias_list()[k]) < byte_length(
                    #[trigger] r.alias_list()[j],
                )
            &&& !r.without(name).alias_list().contains(r.alias_list()[k])
        }),
        r.without(name).ip == r.ip,
        r.without(name).comment == r.comment,
        !r.alias_list().contains(name) ==> !r.without(name).has_name(name),
{
    let a = r.alias_list();
    lemma_shortest_upto(a, a.len() as int);
    let k = shortest(a);
    lemma_without_text(a, a[k]);
    assert(seq![r].drop_last() =~= Seq::<Record>::empty());
    assert(without_name(seq![r].drop_last(), name) =~= Seq::<Record>::empty());
    assert(Seq::<Record>::empty().push(r.without(name)) =~= seq![r.without(name)]);
    assert(a.contains(a[k]));
    if !a.contains(name) {
        assert(a[k] != name);
    }
}

/// After an alias has been given to a name that a record has, the first
/// record of that name knows the alias, the other records are as before, and
/// one update is counted; where no record has the name, the edit fails and
/// says so.
pub proof fn law_alias_is_known(s: Store, hostname: Seq<char>, alias: Seq<char>)
    ensures
        ({
            let k = first_named(s.list(), hostname, 0);
            if exists|i: int| 0 <= i < s.list().len() && (#[trigger] s.list()[i]).name == Some(hostname) {
                &&& 0 <= k < s.list().len()
                &&& s.list()[k].name == Some(hostname)
                &&& s.aliased(hostname, alias) == Ok::<(Store, Modifications), Failure>(
                    (s.with(s.list().update(k, s.list()[k].with_alias(alias))), updated(1)),
                )
                &&& s.aliased(hostname, alias)->Ok_0.0.list()[k].has_name(alias)
            } else {
                s.aliased(hostname, alias) == Err::<(Store, Modifications), Failure>(
                    Failure::HostnameDoesNotExist(hostname),
                )
            }
        }),
{
    law_first_named_is_least(s.list(), hostname, 0);
    let k = first_named(s.list(), hostname, 0);
    if k < s.list().len() {
        let list = s.list()[k].with_alias(alias).alias_list();
        assert(list[list.len() - 1] == alias);
    }
}

/// The scan for a record that touches a pair ends on the first such record,
/// or at the end where there is none.
pub proof fn law_first_touching_is_least(
    rs: Seq<Record>,
    hostname: Seq<char>,
    ip: IpAddress,
    i: int,
)
    requires
        0 <= i <= rs.len(),
    ensures
        i <= first_touching(rs, hostname, ip, i) <= rs.len(),
        forall|j: int|
            i <= j < first_touching(rs, hostname, ip, i) ==> !touches(
                #[trigger] rs[j],
                hostname,
                ip,
            ),
        first_touching(rs, hostname, ip, i) < rs.len() ==> touches(
            rs[first_touching(rs, hostname, ip, i)],
            hostname,
            ip,
        ),
    decreases rs.len() - i,
{
    if i < rs.len() && !touches(rs[i], hostname, ip) {
        law_first_touching_is_least(rs, hostname, ip, i + 1);
    }
}

/// The scan for a record that is related to a name ends on the first such
/// record, or at the end where there is none.
pub proof fn law_first_related_is_least(rs: Seq<Record>, hostname: Seq<char>, i: int)
    requires
        0 <= i <= rs.len(),
    ensures
        i <= first_related(rs, hostname, i) <= rs.len(),
        forall|j: int|
            i <= j < first_related(rs, hostname, i) ==> !related(#[trigger] rs[j], hostname),
        first_related(rs, hostname, i) < rs.len() ==> related(
            rs[first_related(rs, hostname, i)],
            hostname,
        ),
    decreases rs.len() - i,
{
    if i < rs.len() && !related(rs[i], hostname) {
        law_first_related_is_least(rs, hostname, i + 1);
    }
}

/// What deleting an address or a name leaves of well-formed records is
/// well-formed.
proof fn lemma_deleting_keeps_the_shapes(rs: Seq<Record>, ip: IpAddress, name: Seq<char>)
    requires
        forall|i: int| 0 <= i < rs.len() ==> (#[trigger] rs[i]).well_formed(),
    ensures
        forall|i: int|
            0 <= i < without_address(rs, ip).len() ==> (#[trigger] without_address(
                rs,
                ip,
            )[i]).well_formed(),
        forall|i: int|
            0 <= i < without_name(rs, name).len() ==> (#[trigger] without_name(
                rs,
                name,
            )[i]).well_formed(),
    decreases rs.len(),
{
    if rs.len() > 0 {
        let front = rs.drop_last();
        assert forall|i: int| 0 <= i < front.len() implies (#[trigger] front[i]).well_formed() by {
            assert(front[i] == rs[i]);
        }
        lemma_deleting_keeps_the_shapes(front, ip, name);
        assert(rs.last() == rs[rs.len() - 1]);
        assert(rs.last().well_formed());
        assert(rs.last().without(name).well_formed());
        let by_address = without_address(rs, ip);
        let by_name = without_name(rs, name);
        assert forall|i: int| 0 <= i < by_address.len() implies (#[trigger] by_address[i]).well_formed() by {
            if i < without_address(front, ip).len() {
                assert(by_address[i] == without_address(front, ip)[i]);
            }
        }
        assert forall|i: int| 0 <= i < by_name.len() implies (#[trigger] by_name[i]).well_formed() by {
            if i < without_name(front, name).len() {
                assert(by_name[i] == without_name(front, name)[i]);
            }
        }
    }
}

/// The edits keep the shapes of the lines: where every record of a store is
/// a comment, blank or a host record, so is every record after a name has
/// been added, with an address or without, after an address has been put in
/// place of another, after an alias has been given, and after an address or
/// a name has been deleted. (Taking the address of a host record away, by
/// replacing it with none, leaves a name without an address.)
pub proof fn law_edits_keep_the_shapes(
    s: Store,
    hostname: Seq<char>,
    other: Seq<char>,
    ip: IpAddress,
)
    requires
        s.well_formed(),
    ensures
        s.add_with_address(hostname, ip) is Ok ==> s.add_with_address(
            hostname,
            ip,
        )->Ok_0.0.well_formed(),
        s.add_without_address(hostname) is Ok ==> s.add_without_address(
            hostname,
        )->Ok_0.0.well_formed(),
        s.readdressed(hostname, Some(ip)).0.well_formed(),
        s.aliased(hostname, other) is Ok ==> s.aliased(hostname, other)->Ok_0.0.well_formed(),
        s.deleted(hostname).well_formed(),
{
    let rs = s.list();
    law_first_touching_is_least(rs, hostname, ip, 0);
    law_first_related_is_least(rs, hostname, 0);
    law_first_named_is_least(rs, hostname, 0);
    lemma_deleting_keeps_the_shapes(rs, ip, hostname);
    let t = first_touching(rs, hostname, ip, 0);
    if t < rs.len() {
        assert(rs[t].well_formed());
    }
    let r = first_related(rs, hostname, 0);
    if r < rs.len() {
        assert(rs[r].well_formed());
    }
    let n = first_named(rs, hostname, 0);
    if n < rs.len() {
        assert(rs[n].well_formed());
    }
    if address_of(hostname) is Some {
        lemma_deleting_keeps_the_shapes(rs, address_of(hostname)->0, hostname);
    }
}

/// A list that does not hold `t` is left as it is when `t` is taken from it.
proof fn lemma_without_absent_text(a: Seq<Seq<char>>, t: Seq<char>)
    requires
        !a.contains(t),
    ensures
        without_text(a, t) == a,
    decreases a.len(),
{
    if a.len() > 0 {
        let front = a.drop_last();
        assert(a[a.len() - 1] != t);
        assert forall|i: int| 0 <= i < front.len() implies front[i] != t by {
            assert(front[i] == a[i]);
        }
        lemma_without_absent_text(front, t);
        assert(front.push(a.last()) =~= a);
    } else {
        assert(a =~= Seq::<Seq<char>>::empty());
    }
}

/// Deleting a name leaves a record that does not know the name as it is; a
/// comment or a blank line never changes.
pub proof fn law_delete_name_leaves_strangers(r: Record, name: Seq<char>)
    requires
        !r.has_name(name),
    ensures
        !r.can_delete(name),
        !r.loses(name),
        r.without(name) == r,
{
    lemma_without_absent_text(r.alias_list(), name);
}

/// An edit that succeeds leaves every line but one in its place and as it
/// was: adding a name, replacing an address and giving an alias change one
/// record and keep the number of records, or, for a new name under a new
/// address, append one record behind the others.
pub proof fn law_edits_touch_one_record(
    s: Store,
    hostname: Seq<char>,
    other: Seq<char>,
    ip: IpAddress,
    to: Option<IpAddress>,
)
    ensures
        s.add_with_address(hostname, ip) is Ok ==> one_record_apart(
            s.list(),
            s.add_with_address(hostname, ip)->Ok_0.0.list(),
        ),
        s.add_without_address(hostname) is Ok ==> one_record_apart(
            s.list(),
            s.add_without_address(hostname)->Ok_0.0.list(),
        ),
        one_record_apart(s.list(), s.readdressed(hostname, to).0.list()),
        s.aliased(hostname, other) is Ok ==> one_record_apart(
            s.list(),
            s.aliased(hostname, other)->Ok_0.0.list(),
        ),
{
    let rs = s.list();
    law_first_touching_is_least(rs, hostname, ip, 0);
    law_first_related_is_least(rs, hostname, 0);
    law_first_named_is_least(rs, hostname, 0);
    let t = first_touching(rs, hostname, ip, 0);
    if s.add_with_address(hostname, ip) is Ok {
        let after = s.add_with_address(hostname, ip)->Ok_0.0.list();
        if t < rs.len() {
            assert(differ_at_most_at(rs, after, t));
        } else {
            assert(after.drop_last() =~= rs);
        }
    }
    let r = first_related(rs, hostname, 0);
    if s.add_without_address(hostname) is Ok {
        assert(differ_at_most_at(rs, s.add_without_address(hostname)->Ok_0.0.list(), r));
    }
    let n = first_named(rs, hostname, 0);
    if n < rs.len() {
        assert(differ_at_most_at(rs, s.readdressed(hostname, to).0.list(), n));
        assert(differ_at_most_at(rs, s.aliased(hostname, other)->Ok_0.0.list(), n));
    } else {
        assert(differ_at_most_at(rs, s.readdressed(hostname, to).0.list(), 0));
    }
}

/// Deleting a name drops exactly the records that it deletes, those named so
/// without an alias, and leaves of every other record, in its place among
/// the others, what is left when the name is taken from it; as many records
/// leave as the tally counts.
pub proof fn law_delete_name(rs: Seq<Record>, name: Seq<char>)
    ensures
        without_name(rs, name) == rs.filter(|r: Record| !r.can_delete(name)).map_values(
            |r: Record| r.without(name),
        ),
        without_name(rs, name).len() + count_deleted(rs, name) == rs.len(),
    decreases rs.len(),
{
    reveal(Seq::filter);
    let keep = |r: Record| !r.can_delete(name);
    let take = |r: Record| r.without(name);
    if rs.len() > 0 {
        let front = rs.drop_last();
        law_delete_name(front, name);
        if keep(rs.last()) {
            assert(rs.filter(keep) == front.filter(keep).push(rs.last()));
            assert(front.filter(keep).push(rs.last()).map_values(take) =~= front.filter(
                keep,
            ).map_values(take).push(rs.last().without(name)));
        }
    } else {
        assert(rs.filter(keep).map_values(take) =~= Seq::<Record>::empty());
    }
}

} // verus!
