//! The records of one hosts file, in the order of its lines, and the edits
//! on them: add, replace, delete and alias.

use crate::errors::{ApplicationError, Failure};
use crate::hostentry::{line_record, text_of, HostEntry, Record};
use crate::ipaddr::{address_of, IpAddress};
use crate::text::{same_text, texts};
use crate::utils::Modifications;
use vstd::prelude::*;
use vstd::string::*;

verus! {

/// A hosts file: where it lies, and its lines once they have been read.
#[derive(Debug)]
pub struct HostFile {
    pub filename: String,
    pub entries: Option<Vec<HostEntry>>,
}

/// What a [`HostFile`] holds: the name of the file and the records of its
/// lines.
pub struct Store {
    pub filename: Seq<char>,
    pub entries: Option<Seq<Record>>,
}

/// The records that the entries of `v` hold.
pub open spec fn records(v: Seq<HostEntry>) -> Seq<Record> {
    Seq::new(v.len(), |i: int| v[i]@)
}

impl View for HostFile {
    type V = Store;

    open spec fn view(&self) -> Store {
        Store {
            filename: self.filename@,
            entries: match self.entries {
                Some(v) => Some(records(v@)),
                None => None,
            },
        }
    }
}

/// The tally of `n` updated records.
pub open spec fn updated(n: i32) -> Modifications {
    Modifications { updated_entries: n, removed_entries: 0, added_entries: 0 }
}

/// The tally of one added record.
pub open spec fn added_one() -> Modifications {
    Modifications { updated_entries: 0, removed_entries: 0, added_entries: 1 }
}

/// Whether a record stands in the way of, or takes, the pair of `hostname`
/// and `ip`: it has the address or knows the name.
pub open spec fn touches(r: Record, hostname: Seq<char>, ip: IpAddress) -> bool {
    r.has_ip(ip) || r.has_name(hostname)
}

/// Whether a record is related to `hostname` by domain or knows it.
pub open spec fn related(r: Record, hostname: Seq<char>) -> bool {
    r.can_resolve_host(hostname) || r.can_hostname_resolve_domain(hostname) || r.has_name(hostname)
}

/// The first position from `i` on whose record touches the pair, or the
/// length.
pub open spec fn first_touching(rs: Seq<Record>, hostname: Seq<char>, ip: IpAddress, i: int) -> int
    decreases rs.len() - i,
{
    if 0 <= i < rs.len() && !touches(rs[i], hostname, ip) {
        first_touching(rs, hostname, ip, i + 1)
    } else {
        i
    }
}

/// The first position from `i` on whose record is related to `hostname`, or
/// the length.
pub open spec fn first_related(rs: Seq<Record>, hostname: Seq<char>, i: int) -> int
    decreases rs.len() - i,
{
    if 0 <= i < rs.len() && !related(rs[i], hostname) {
        first_related(rs, hostname, i + 1)
    } else {
        i
    }
}

/// The first position from `i` on whose record is named `hostname`, or the
/// length.
pub open spec fn first_named(rs: Seq<Record>, hostname: Seq<char>, i: int) -> int
    decreases rs.len() - i,
{
    if 0 <= i < rs.len() && rs[i].name != Some(hostname) {
        first_named(rs, hostname, i + 1)
    } else {
        i
    }
}

/// The records of `rs` whose address is not `ip`, in order.
pub open spec fn without_address(rs: Seq<Record>, ip: IpAddress) -> Seq<Record>
    decreases rs.len(),
{
    if rs.len() == 0 {
        Seq::empty()
    } else if rs.last().has_ip(ip) {
        without_address(rs.drop_last(), ip)
    } else {
        without_address(rs.drop_last(), ip).push(rs.last())
    }
}

/// How many records of `rs` have the address `ip`.
pub open spec fn count_address(rs: Seq<Record>, ip: IpAddress) -> int
    decreases rs.len(),
{
    if rs.len() == 0 {
        0
    } else {
        count_address(rs.drop_last(), ip) + (if rs.last().has_ip(ip) {
            1int
        } else {
            0int
        })
    }
}

/// The records of `rs` after `name` has been taken from each: a record that
/// `name` deletes is left out, any other stays in its place as what is left
/// of it.
pub open spec fn without_name(rs: Seq<Record>, name: Seq<char>) -> Seq<Record>
    decreases rs.len(),
{
    if rs.len() == 0 {
        Seq::empty()
    } else if rs.last().can_delete(name) {
        without_name(rs.drop_last(), name)
    } else {
        without_name(rs.drop_last(), name).push(rs.last().without(name))
    }
}

/// How many records of `rs` deleting `name` deletes.
pub open spec fn count_deleted(rs: Seq<Record>, name: Seq<char>) -> int
    decreases rs.len(),
{
    if rs.len() == 0 {
        0
    } else {
        count_deleted(rs.drop_last(), name) + (if rs.last().can_delete(name) {
            1int
        } else {
            0int
        })
    }
}

/// How many records of `rs` deleting `name` changes and keeps.
pub open spec fn count_losing(rs: Seq<Record>, name: Seq<char>) -> int
    decreases rs.len(),
{
    if rs.len() == 0 {
        0
    } else {
        count_losing(rs.drop_last(), name) + (if rs.last().loses(name) {
            1int
        } else {
            0int
        })
    }
}

impl Store {
    /// The records in order; none where no lines have been read.
    pub open spec fn list(self) -> Seq<Record> {
        match self.entries {
            Some(rs) => rs,
            None => Seq::empty(),
        }
    }

    /// Whether every record has one of the three shapes of a line.
    pub open spec fn well_formed(self) -> bool {
        forall|i: int| 0 <= i < self.list().len() ==> (#[trigger] self.list()[i]).well_formed()
    }

    /// The store with `rs` for its records.
    pub open spec fn with(self, rs: Seq<Record>) -> Store {
        Store { entries: Some(rs), ..self }
    }

    /// Adding `hostname` under the address `ip`. The first record that has
    /// the address or knows the name decides: with the address and without
    /// the name it takes the name, as its new name where that is a parent
    /// domain of the old one and as an alias otherwise; with the address and
    /// the name the pair exists already; with the name alone the name is
    /// taken. Where no record decides, a new record is appended.
    pub open spec fn add_with_address(self, hostname: Seq<char>, ip: IpAddress) -> Result<
        (Store, Modifications),
        Failure,
    > {
        let rs = self.list();
        let k = first_touching(rs, hostname, ip, 0);
        if k < rs.len() {
            if rs[k].has_ip(ip) && !rs[k].has_name(hostname) {
                let changed = if rs[k].can_hostname_resolve_domain(hostname) {
                    rs[k].promoted(hostname)
                } else {
                    rs[k].with_alias(hostname)
                };
                Ok((self.with(rs.update(k, changed)), updated(1)))
            } else if rs[k].has_ip(ip) {
                Err(Failure::IpAlreadyInUse(rs[k].render()))
            } else {
                Err(Failure::HostnameAlreadyInUse(rs[k].render()))
            }
        } else {
            Ok(
                (
                    self.with(
                        rs.push(
                            Record {
                                ip: Some(ip),
                                name: Some(hostname),
                                aliasses: None,
                                comment: None,
                            },
                        ),
                    ),
                    added_one(),
                ),
            )
        }
    }

    /// Adding the bare name `hostname`. The first record that is related to
    /// it decides: one whose name is a parent domain, and that does not know
    /// the name yet, takes it as an alias; one whose name is a subdomain is
    /// renamed to it; one that knows it already leaves all as it is. Where no
    /// record is related, there is no parent domain.
    pub open spec fn add_without_address(self, hostname: Seq<char>) -> Result<
        (Store, Modifications),
        Failure,
    > {
        let rs = self.list();
        let k = first_related(rs, hostname, 0);
        if k < rs.len() {
            if rs[k].can_resolve_host(hostname) && !rs[k].has_name(hostname) {
                Ok((self.with(rs.update(k, rs[k].with_alias(hostname))), updated(1)))
            } else if rs[k].can_hostname_resolve_domain(hostname) {
                Ok((self.with(rs.update(k, rs[k].promoted(hostname))), updated(1)))
            } else {
                Ok((self, updated(0)))
            }
        } else {
            Err(Failure::NoParentDomain)
        }
    }

    /// Adding `hostname` with the address written as `ip`, or without one.
    pub open spec fn added(self, hostname: Seq<char>, ip: Option<Seq<char>>) -> Result<
        (Store, Modifications),
        Failure,
    > {
        match ip {
            Some(t) => match address_of(t) {
                Some(a) => self.add_with_address(hostname, a),
                None => Err(Failure::IpAddressConversion),
            },
            None => self.add_without_address(hostname),
        }
    }

    /// Giving the first record named `hostname` the address `ip` (or none);
    /// nothing changes where no record has that name.
    pub open spec fn readdressed(self, hostname: Seq<char>, ip: Option<IpAddress>) -> (
        Store,
        Modifications,
    ) {
        let rs = self.list();
        let k = first_named(rs, hostname, 0);
        if k < rs.len() {
            (self.with(rs.update(k, Record { ip: ip, ..rs[k] })), updated(1))
        } else {
            (self, updated(0))
        }
    }

    /// Replacing the address of `hostname` by the one written as `ip`.
    pub open spec fn replaced(self, hostname: Seq<char>, ip: Option<Seq<char>>) -> Result<
        (Store, Modifications),
        Failure,
    > {
        match ip {
            Some(t) => match address_of(t) {
                Some(a) => Ok(self.readdressed(hostname, Some(a))),
                None => Err(Failure::IpAddressConversion),
            },
            None => Ok(self.readdressed(hostname, None)),
        }
    }

    /// Appending `alias` to the first record named `hostname`.
    pub open spec fn aliased(self, hostname: Seq<char>, alias: Seq<char>) -> Result<
        (Store, Modifications),
        Failure,
    > {
        let rs = self.list();
        let k = first_named(rs, hostname, 0);
        if k < rs.len() {
            Ok((self.with(rs.update(k, rs[k].with_alias(alias))), updated(1)))
        } else {
            Err(Failure::HostnameDoesNotExist(hostname))
        }
    }

    /// The store without the records whose address `entry` denotes; the
    /// store itself where `entry` denotes none.
    pub open spec fn without_ip(self, entry: Seq<char>) -> Store {
        match (address_of(entry), self.entries) {
            (Some(ip), Some(rs)) => self.with(without_address(rs, ip)),
            _ => self,
        }
    }

    /// How many records have the address that `entry` denotes.
    pub open spec fn ip_count(self, entry: Seq<char>) -> int {
        match address_of(entry) {
            Some(ip) => count_address(self.list(), ip),
            None => 0,
        }
    }

    /// The store after `name` has been taken from each record.
    pub open spec fn without_hostname(self, name: Seq<char>) -> Store {
        match self.entries {
            Some(rs) => self.with(without_name(rs, name)),
            None => self,
        }
    }

    /// The store after `entry` has been deleted: as an address where it
    /// denotes one, else as a name.
    pub open spec fn deleted(self, entry: Seq<char>) -> Store {
        if address_of(entry) is Some {
            self.without_ip(entry)
        } else {
            self.without_hostname(entry)
        }
    }

    /// How many records deleting `entry` removes.
    pub open spec fn deleted_removals(self, entry: Seq<char>) -> int {
        if address_of(entry) is Some {
            self.ip_count(entry)
        } else {
            count_deleted(self.list(), entry)
        }
    }

    /// How many records deleting `entry` changes and keeps.
    pub open spec fn deleted_updates(self, entry: Seq<char>) -> int {
        if address_of(entry) is Some {
            0
        } else {
            count_losing(self.list(), entry)
        }
    }
}

/// The first position whose entry touches the pair, or the length.
fn find_touching(v: &Vec<HostEntry>, hostname: &str, ip: &IpAddress) -> (k: usize)
    ensures
        k == first_touching(records(v@), hostname@, *ip, 0),
        k <= v.len(),
{
    let mut i: usize = 0;
    while i < v.len()
        invariant
            i <= v.len(),
            first_touching(records(v@), hostname@, *ip, i as int) == first_touching(
                records(v@),
                hostname@,
                *ip,
                0,
            ),
        decreases v.len() - i,
    {
        assert(records(v@)[i as int] == v@[i as int]@);
        if v[i].has_ip(ip) || v[i].has_name(hostname) {
            return i;
        }
        i = i + 1;
    }
    i
}

/// The first position whose entry is related to `hostname`, or the length.
fn find_related(v: &Vec<HostEntry>, hostname: &str) -> (k: usize)
    ensures
        k == first_related(records(v@), hostname@, 0),
        k <= v.len(),
{
    let mut i: usize = 0;
    while i < v.len()
        invariant
            i <= v.len(),
            first_related(records(v@), hostname@, i as int) == first_related(
                records(v@),
                hostname@,
                0,
            ),
        decreases v.len() - i,
    {
        assert(records(v@)[i as int] == v@[i as int]@);
        if v[i].can_resolve_host(hostname) || v[i].can_hostname_resolve_domain(hostname)
            || v[i].has_name(hostname) {
            return i;
        }
        i = i + 1;
    }
    i
}

/// The first position whose entry is named `hostname`, or the length.
fn find_named(v: &Vec<HostEntry>, hostname: &str) -> (k: usize)
    ensures
        k == first_named(records(v@), hostname@, 0),
        k <= v.len(),
{
    let mut i: usize = 0;
    while i < v.len()
        invariant
            i <= v.len(),
            first_named(records(v@), hostname@, i as int) == first_named(
                records(v@),
                hostname@,
                0,
            ),
        decreases v.len() - i,
    {
        assert(records(v@)[i as int] == v@[i as int]@);
        let named = match &v[i].name {
            Some(n) => same_text(n.as_str(), hostname),
            None => false,
        };
        if named {
            return i;
        }
        i = i + 1;
    }
    i
}

/// The address that an optional text denotes: `Ok(None)` for no text, the
/// conversion error for a text that denotes no address.
fn read_address(ip: &Option<String>) -> (r: Result<Option<IpAddress>, ApplicationError>)
    ensures
        match text_of(*ip) {
            None => r == Ok::<Option<IpAddress>, ApplicationError>(None),
            Some(t) => match address_of(t) {
                Some(a) => r == Ok::<Option<IpAddress>, ApplicationError>(Some(a)),
                None => r is Err && r->Err_0@ == Failure::IpAddressConversion,
            },
        },
{
    match ip {
        None => Ok(None),
        Some(t) => match IpAddress::parse(t.as_str()) {
            Some(a) => Ok(Some(a)),
            None => Err(ApplicationError::IpAddressConversion),
        },
    }
}

impl HostFile {
    /// Puts `entry` in place of the entry at position `k`.
    fn put(&mut self, k: usize, entry: HostEntry)
        requires
            k < old(self)@.list().len(),
        ensures
            final(self)@ == old(self)@.with(old(self)@.list().update(k as int, entry@)),
    {
        let mut list: Vec<HostEntry> = match self.entries.take() {
            Some(v) => v,
            None => Vec::new(),
        };
        list.set(k, entry);
        assert(records(list@) =~= old(self)@.list().update(k as int, entry@));
        self.entries = Some(list);
    }

    /// Appends `entry` to the entries, starting the list where there is none.
    pub fn add_host_entry(&mut self, entry: HostEntry)
        ensures
            final(self)@ == old(self)@.with(old(self)@.list().push(entry@)),
    {
        let mut list: Vec<HostEntry> = match self.entries.take() {
            Some(v) => v,
            None => Vec::new(),
        };
        list.push(entry);
        assert(records(list@) =~= old(self)@.list().push(entry@));
        self.entries = Some(list);
    }

    /// Reads the lines of the file: afterwards the entries are those of
    /// `lines`, one for each line in order.
    pub fn parse(&mut self, lines: &Vec<String>)
        ensures
            final(self)@.filename == old(self)@.filename,
            final(self)@.entries == Some(texts(lines@).map_values(|t: Seq<char>| line_record(t))),
    {
        let mut list: Vec<HostEntry> = Vec::new();
        let mut i: usize = 0;
        let ghost want = texts(lines@).map_values(|t: Seq<char>| line_record(t));
        while i < lines.len()
            invariant
                i <= lines.len(),
                list@.len() == i,
                forall|k: int| 0 <= k < i ==> (#[trigger] list@[k])@ == line_record(lines@[k]@),
            decreases lines.len() - i,
        {
            list.push(HostEntry::from_line(lines[i].as_str()));
            i = i + 1;
        }
        assert(records(list@) =~= want);
        self.entries = Some(list);
    }

    /// The lines of the file as its entries give them, in order.
    pub fn lines(&self) -> (r: Vec<String>)
        ensures
            texts(r@) == self@.list().map_values(|e: Record| e.render()),
    {
        let mut out: Vec<String> = Vec::new();
        let ghost want = self@.list().map_values(|e: Record| e.render());
        match &self.entries {
            Some(v) => {
                let mut i: usize = 0;
                while i < v.len()
                    invariant
                        i <= v.len(),
                        out@.len() == i,
                        forall|k: int| 0 <= k < i ==> (#[trigger] out@[k])@ == v@[k]@.render(),
                    decreases v.len() - i,
                {
                    out.push(v[i].to_string());
                    i = i + 1;
                }
                assert(texts(out@) =~= want);
            },
            None => {
                assert(texts(out@) =~= want);
            },
        }
        out
    }

    /// Adds `hostname`, under the address written as `ip` or as a bare name
    /// under a record that is related to it by domain.
    pub fn add(&mut self, hostname: String, ip: Option<String>) -> (r: Result<
        Modifications,
        ApplicationError,
    >)
        ensures
            match r {
                Ok(m) => old(self)@.added(hostname@, text_of(ip)) == Ok::<
                    (Store, Modifications),
                    Failure,
                >((final(self)@, m)),
                Err(e) => old(self)@.added(hostname@, text_of(ip)) == Err::<
                    (Store, Modifications),
                    Failure,
                >(e@) && final(self)@ == old(self)@,
            },
    {
        let mut mods = Modifications::new();
        let ip_address = match read_address(&ip) {
            Ok(a) => a,
            Err(e) => {
                return Err(e);
            },
        };
        match ip_address {
            Some(ip_a) => {
                let found: Option<(usize, HostEntry)> = match &self.entries {
                    Some(v) => {
                        let k = find_touching(v, hostname.as_str(), &ip_a);
                        if k < v.len() {
                            assert(records(v@)[k as int] == v@[k as int]@);
                            Some((k, v[k].clone()))
                        } else {
                            None
                        }
                    },
                    None => None,
                };
                match found {
                    Some((k, entry)) => {
                        let mut entry = entry;
                        if entry.has_ip(&ip_a) && !entry.has_name(hostname.as_str()) {
                            if entry.can_hostname_resolve_domain(hostname.as_str()) {
                                entry.switch_name_with_alias(hostname.as_str());
                            } else {
                                entry.add_alias(hostname.as_str());
                            }
                            self.put(k, entry);
                            mods.updated_entries = 1;
                            Ok(mods)
                        } else if entry.has_ip(&ip_a) {
                            Err(ApplicationError::IpAlreadyInUse(entry.to_string()))
                        } else {
                            Err(ApplicationError::HostnameAlreadyInUse(entry.to_string()))
                        }
                    },
                    None => {
                        mods.added_entries = 1;
                        self.add_host_entry(
                            HostEntry {
                                ip: Some(ip_a),
                                name: Some(hostname),
                                aliasses: None,
                                comment: None,
                            },
                        );
                        Ok(mods)
                    },
                }
            },
            None => {
                let found: Option<(usize, HostEntry)> = match &self.entries {
                    Some(v) => {
                        let k = find_related(v, hostname.as_str());
                        if k < v.len() {
                            assert(records(v@)[k as int] == v@[k as int]@);
                            Some((k, v[k].clone()))
                        } else {
                            None
                        }
                    },
                    None => None,
                };
                match found {
                    Some((k, entry)) => {
                        let mut entry = entry;
                        if entry.can_resolve_host(hostname.as_str()) && !entry.has_name(
                            hostname.as_str(),
                        ) {
                            entry.add_alias(hostname.as_str());
                            self.put(k, entry);
                            mods.updated_entries = 1;
                        } else if entry.can_hostname_resolve_domain(hostname.as_str()) {
                            entry.switch_name_with_alias(hostname.as_str());
                            self.put(k, entry);
                            mods.updated_entries = 1;
                        }
                        Ok(mods)
                    },
                    None => Err(ApplicationError::NoParentDomain),
                }
            },
        }
    }
    /// Gives the first entry named `hostname` the address written as `ip`,
    /// or none where `ip` is absent. Where no entry has that name, nothing
    /// changes and the tally is empty.
    pub fn replace(&mut self, hostname: String, ip: Option<String>) -> (r: Result<
        Modifications,
        ApplicationError,
    >)
        ensures
            match r {
                Ok(m) => old(self)@.replaced(hostname@, text_of(ip)) == Ok::<
                    (Store, Modifications),
                    Failure,
                >((final(self)@, m)),
                Err(e) => old(self)@.replaced(hostname@, text_of(ip)) == Err::<
                    (Store, Modifications),
                    Failure,
                >(e@) && final(self)@ == old(self)@,
            },
    {
        let mut mods = Modifications::new();
        let ip_address = match read_address(&ip) {
            Ok(a) => a,
            Err(e) => {
                return Err(e);
            },
        };
        let found: Option<(usize, HostEntry)> = match &self.entries {
            Some(v) => {
                let k = find_named(v, hostname.as_str());
                if k < v.len() {
                    assert(records(v@)[k as int] == v@[k as int]@);
                    Some((k, v[k].clone()))
                } else {
                    None
                }
            },
            None => None,
        };
        match found {
            Some((k, entry)) => {
                let mut entry = entry;
                entry.ip = ip_address;
                self.put(k, entry);
                mods.updated_entries = 1;
            },
            None => {},
        }
        Ok(mods)
    }

    /// Appends `alias` to the first entry named `hostname`, whatever other
    /// entries hold; fails where no entry has that name.
    pub fn alias(&mut self, hostname: String, alias: String) -> (r: Result<
        Modifications,
        ApplicationError,
    >)
        ensures
            match r {
                Ok(m) => old(self)@.aliased(hostname@, alias@) == Ok::<
                    (Store, Modifications),
                    Failure,
                >((final(self)@, m)),
                Err(e) => old(self)@.aliased(hostname@, alias@) == Err::<
                    (Store, Modifications),
                    Failure,
                >(e@) && final(self)@ == old(self)@,
            },
    {
        let mut mods = Modifications::new();
        let found: Option<(usize, HostEntry)> = match &self.entries {
            Some(v) => {
                let k = find_named(v, hostname.as_str());
                if k < v.len() {
                    assert(records(v@)[k as int] == v@[k as int]@);
                    Some((k, v[k].clone()))
                } else {
                    None
                }
            },
            None => None,
        };
        match found {
            Some((k, entry)) => {
                let mut entry = entry;
                entry.add_alias(alias.as_str());
                self.put(k, entry);
                mods.updated_entries = 1;
                Ok(mods)
            },
            None => Err(ApplicationError::HostnameDoesNotExist(hostname)),
        }
    }

    /// Drops every entry whose address `entry` denotes and counts them as
    /// removed. Where `entry` denotes no address, nothing changes.
    pub fn remove_ip(&mut self, entry: String) -> (m: Modifications)
        requires
            old(self)@.list().len() <= i32::MAX,
        ensures
            final(self)@ == old(self)@.without_ip(entry@),
            m.removed_entries == old(self)@.ip_count(entry@),
            m.updated_entries == 0,
            m.added_entries == 0,
    {
        let mut mods = Modifications::new();
        let ip = match IpAddress::parse(entry.as_str()) {
            Some(x) => x,
            None => {
                return mods;
            },
        };
        match self.entries.take() {
            Some(v) => {
                let mut kept: Vec<HostEntry> = Vec::new();
                let mut i: usize = 0;
                let ghost rs = records(v@);
                assert(records(kept@) =~= without_address(rs.take(0), ip));
                while i < v.len()
                    invariant
                        i <= v.len() <= i32::MAX,
                        rs == records(v@),
                        records(kept@) == without_address(rs.take(i as int), ip),
                        mods.removed_entries == count_address(rs.take(i as int), ip),
                        0 <= mods.removed_entries <= i,
                        mods.updated_entries == 0,
                        mods.added_entries == 0,
                    decreases v.len() - i,
                {
                    let ghost before = records(kept@);
                    proof {
                        assert(rs.take(i + 1).drop_last() =~= rs.take(i as int));
                        assert(rs.take(i + 1).last() == v@[i as int]@);
                    }
                    if v[i].has_ip(&ip) {
                        mods.removed_entries = mods.removed_entries + 1;
                    } else {
                        kept.push(v[i].clone());
                        assert(records(kept@) =~= before.push(v@[i as int]@));
                    }
                    i = i + 1;
                }
                assert(rs.take(v.len() as int) =~= rs);
                self.entries = Some(kept);
            },
            None => {},
        }
        mods
    }

    /// Takes `name` from every entry: an entry that it deletes is dropped
    /// and counted as removed, one that it changes is counted as updated.
    pub fn remove_name(&mut self, name: String) -> (m: Modifications)
        requires
            old(self)@.list().len() <= i32::MAX,
        ensures
            final(self)@ == old(self)@.without_hostname(name@),
            m.removed_entries == count_deleted(old(self)@.list(), name@),
            m.updated_entries == count_losing(old(self)@.list(), name@),
            m.added_entries == 0,
    {
        let mut mods = Modifications::new();
        match self.entries.take() {
            Some(v) => {
                let mut kept: Vec<HostEntry> = Vec::new();
                let mut i: usize = 0;
                let ghost rs = records(v@);
                assert(records(kept@) =~= without_name(rs.take(0), name@));
                while i < v.len()
                    invariant
                        i <= v.len() <= i32::MAX,
                        rs == records(v@),
                        records(kept@) == without_name(rs.take(i as int), name@),
                        mods.removed_entries == count_deleted(rs.take(i as int), name@),
                        mods.updated_entries == count_losing(rs.take(i as int), name@),
                        0 <= mods.removed_entries <= i,
                        0 <= mods.updated_entries <= i,
                        mods.added_entries == 0,
                    decreases v.len() - i,
                {
                    let ghost before = records(kept@);
                    proof {
                        assert(rs.take(i + 1).drop_last() =~= rs.take(i as int));
                        assert(rs.take(i + 1).last() == v@[i as int]@);
                    }
                    if !v[i].can_delete(name.as_str()) {
                        let (m, e) = v[i].remove_hostname(name.as_str());
                        mods.updated_entries = mods.updated_entries + m.updated_entries;
                        mods.removed_entries = mods.removed_entries + m.removed_entries;
                        kept.push(e);
                        assert(records(kept@) =~= before.push(v@[i as int]@.without(name@)));
                    } else {
                        mods.removed_entries = mods.removed_entries + 1;
                    }
                    i = i + 1;
                }
                assert(rs.take(v.len() as int) =~= rs);
                self.entries = Some(kept);
            },
            None => {},
        }
        mods
    }

    /// Deletes `entry`: every record with that address where `entry` denotes
    /// an address, else that name from every record. Never fails.
    pub fn delete(&mut self, entry: String) -> (r: Result<Modifications, ApplicationError>)
        requires
            old(self)@.list().len() <= i32::MAX,
        ensures
            r is Ok,
            final(self)@ == old(self)@.deleted(entry@),
            r->Ok_0.removed_entries == old(self)@.deleted_removals(entry@),
            r->Ok_0.updated_entries == old(self)@.deleted_updates(entry@),
            r->Ok_0.added_entries == 0,
    {
        let mut mods = Modifications::new();
        let is_ip = IpAddress::parse(entry.as_str()).is_some();
        if is_ip {
            let m = self.remove_ip(entry);
            mods.merge(m);
        } else {
            let m = self.remove_name(entry);
            mods.merge(m);
        }
        Ok(mods)
    }
}

} // verus!
