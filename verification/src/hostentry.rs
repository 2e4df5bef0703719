//! One line of a hosts file: a comment, a blank line or a host record; the
//! predicates that relate a record to a name or an address, and the changes
//! that one record can undergo.

use crate::ipaddr::{address_of, IpAddress};
use crate::pattern::{captures, group_texts, regex_captures};
use crate::text::{
    contains_text, copy_texts, ends_with_dot, has_dot_suffix, join_words, joined, remove_text,
    same_text, same_texts, shortest, shortest_position, split_words, texts, trim, trimmed,
    without_text, words,
};
use crate::utils::Modifications;
use vstd::prelude::*;
use vstd::std_specs::cmp::PartialEqSpecImpl;
use vstd::string::*;

verus! {

/// One line of a hosts file. A comment line holds only `comment`; a blank
/// line holds nothing; a host record holds `ip` and `name`, and may hold
/// aliases and a trailing comment.
#[derive(Debug)]
pub struct HostEntry {
    pub ip: Option<IpAddress>,
    pub name: Option<String>,
    pub aliasses: Option<Vec<String>>,
    pub comment: Option<String>,
}

/// What a [`HostEntry`] holds, each text as a sequence of characters.
pub struct Record {
    pub ip: Option<IpAddress>,
    pub name: Option<Seq<char>>,
    pub aliasses: Option<Seq<Seq<char>>>,
    pub comment: Option<Seq<char>>,
}

/// What an optional string holds.
pub open spec fn text_of(t: Option<String>) -> Option<Seq<char>> {
    match t {
        Some(s) => Some(s@),
        None => None,
    }
}

impl View for HostEntry {
    type V = Record;

    open spec fn view(&self) -> Record {
        Record {
            ip: self.ip,
            name: text_of(self.name),
            aliasses: match self.aliasses {
                Some(a) => Some(texts(a@)),
                None => None,
            },
            comment: text_of(self.comment),
        }
    }
}

impl Record {
    /// The record of a blank line.
    pub open spec fn blank() -> Record {
        Record { ip: None, name: None, aliasses: None, comment: None }
    }

    /// Whether the record is that of a comment line: a comment and nothing
    /// else.
    pub open spec fn is_comment(self) -> bool {
        self.ip is None && self.name is None && self.aliasses is None && self.comment is Some
    }

    /// Whether the record is that of a blank line: it holds nothing.
    pub open spec fn is_blank(self) -> bool {
        self == Record::blank()
    }

    /// Whether the record is a host record: it has an address and a name.
    pub open spec fn is_host(self) -> bool {
        self.ip is Some && self.name is Some
    }

    /// Whether the record has one of the three shapes of a line.
    pub open spec fn well_formed(self) -> bool {
        self.is_comment() || self.is_blank() || self.is_host()
    }

    /// The aliases in order; none where the list is absent.
    pub open spec fn alias_list(self) -> Seq<Seq<char>> {
        match self.aliasses {
            Some(a) => a,
            None => Seq::empty(),
        }
    }

    /// Whether the record's address is `ip`.
    pub open spec fn has_ip(self, ip: IpAddress) -> bool {
        self.ip == Some(ip)
    }

    /// Whether `hostname` is the record's name or one of its aliases.
    pub open spec fn has_name(self, hostname: Seq<char>) -> bool {
        self.name == Some(hostname) || self.alias_list().contains(hostname)
    }

    /// Whether `hostname` is a strict subdomain of the record's name.
    pub open spec fn can_resolve_host(self, hostname: Seq<char>) -> bool {
        self.name is Some && ends_with_dot(hostname, self.name->0)
    }

    /// Whether the record's name is a strict subdomain of `hostname`.
    pub open spec fn can_hostname_resolve_domain(self, hostname: Seq<char>) -> bool {
        self.name is Some && ends_with_dot(self.name->0, hostname)
    }

    /// The record with `hostname` appended to its aliases.
    pub open spec fn with_alias(self, hostname: Seq<char>) -> Record {
        Record { aliasses: Some(self.alias_list().push(hostname)), ..self }
    }

    /// Where `hostname` is a parent domain of the record's name: the record
    /// named `hostname`, its former name appended to the aliases. Else the
    /// record itself.
    pub open spec fn promoted(self, hostname: Seq<char>) -> Record {
        if self.can_hostname_resolve_domain(hostname) {
            (Record { name: Some(hostname), ..self }).with_alias(self.name->0)
        } else {
            self
        }
    }

    /// Whether deleting `name` deletes the whole record: `name` is its name
    /// and it has no alias.
    pub open spec fn can_delete(self, name: Seq<char>) -> bool {
        self.name == Some(name) && self.alias_list().len() == 0
    }

    /// The record after `name` has been taken from it. Where `name` is the
    /// record's name, the first shortest alias becomes the name and leaves
    /// the aliases (a record without aliases becomes blank). Else, where the
    /// record has a name and a list of aliases, `name` leaves that list.
    pub open spec fn without(self, name: Seq<char>) -> Record {
        if self.name == Some(name) {
            if self.alias_list().len() > 0 {
                let heir = self.alias_list()[shortest(self.alias_list())];
                Record {
                    name: Some(heir),
                    aliasses: Some(without_text(self.alias_list(), heir)),
                    ..self
                }
            } else {
                Record::blank()
            }
        } else if self.name is Some && self.aliasses is Some {
            Record { aliasses: Some(without_text(self.alias_list(), name)), ..self }
        } else {
            self
        }
    }

    /// Whether taking `name` from the record changes it into another host
    /// record: `name` is its name and an alias takes over, or `name` is one
    /// of the aliases under another name.
    pub open spec fn loses(self, name: Seq<char>) -> bool {
        if self.name == Some(name) {
            self.alias_list().len() > 0
        } else {
            self.name is Some && self.alias_list().contains(name)
        }
    }

    /// The line that the record is written as. A comment line is `# ` and
    /// the comment; a record with an address is the address, a tab and the
    /// name (nothing for an absent name), then a tab and the aliases with
    /// spaces between them where the list is present, then a tab and
    /// `# comment` where a comment is present; any other record is empty.
    pub open spec fn render(self) -> Seq<char> {
        if self.ip is None && self.comment is Some {
            "# "@ + self.comment->0
        } else if self.ip is Some {
            self.ip->0.text() + "\t"@ + (match self.name {
                Some(n) => n,
                None => Seq::empty(),
            }) + (match self.aliasses {
                Some(a) => "\t"@ + joined(a),
                None => Seq::empty(),
            }) + (match self.comment {
                Some(c) => "\t# "@ + c,
                None => Seq::empty(),
            })
        } else {
            Seq::empty()
        }
    }
}

/// The expression of a comment line: `#`, white space, and the comment as
/// group 1.
pub const COMMENT_LINE: &'static str = r"^#\s*(?P<c>.+)\s*$";

/// The expression of a host line: the address as group 1, the name as group
/// 2, the aliases as group 4 and the comment behind `#` as group 6.
pub const HOST_LINE: &'static str =
    r"^(?P<ip>.+?)\s+(?P<name>.+?)(\s+(?P<aliasses>[^#]+))?(#\s*(?P<c>.*))?$";

/// The text of group `i`, where the match has such a group and it took part.
pub open spec fn group_at(groups: Seq<Option<Seq<char>>>, i: int) -> Option<Seq<char>> {
    if 0 <= i < groups.len() {
        groups[i]
    } else {
        None
    }
}

/// `t` trimmed, where there is a `t`.
pub open spec fn trimmed_group(t: Option<Seq<char>>) -> Option<Seq<char>> {
    match t {
        Some(s) => Some(trimmed(s)),
        None => None,
    }
}

/// The record of a comment line whose groups are `groups`: the trimmed
/// comment and nothing else.
pub open spec fn comment_record(groups: Seq<Option<Seq<char>>>) -> Record {
    Record { comment: trimmed_group(group_at(groups, 1)), ..Record::blank() }
}

/// The record of a host line whose groups are `groups`: the address that
/// group 1 denotes (none where it denotes none), the trimmed name, the words
/// of the alias group and the trimmed comment.
pub open spec fn host_record(groups: Seq<Option<Seq<char>>>) -> Record {
    Record {
        ip: match group_at(groups, 1) {
            Some(t) => address_of(t),
            None => None,
        },
        name: trimmed_group(group_at(groups, 2)),
        aliasses: match group_at(groups, 4) {
            Some(t) => Some(words(t)),
            None => None,
        },
        comment: trimmed_group(group_at(groups, 6)),
    }
}

/// The record of the line `s`: that of a comment line where `s` matches
/// [`COMMENT_LINE`], else that of a host line where it matches
/// [`HOST_LINE`], else the blank record.
pub open spec fn line_record(s: Seq<char>) -> Record {
    match regex_captures(COMMENT_LINE@, s) {
        Some(groups) => comment_record(groups),
        None => match regex_captures(HOST_LINE@, s) {
            Some(groups) => host_record(groups),
            None => Record::blank(),
        },
    }
}

/// Group `i` of a match, trimmed.
fn trimmed_at(groups: &Vec<Option<String>>, i: usize) -> (r: Option<String>)
    ensures
        text_of(r) == trimmed_group(group_at(group_texts(groups@), i as int)),
{
    if i < groups.len() {
        match &groups[i] {
            Some(t) => Some(trim(t.as_str())),
            None => None,
        }
    } else {
        None
    }
}

/// A copy of an optional string.
fn copy_text(t: &Option<String>) -> (r: Option<String>)
    ensures
        text_of(r) == text_of(*t),
{
    match t {
        Some(s) => Some(s.clone()),
        None => None,
    }
}

/// Whether two optional strings hold the same.
fn same_option(a: &Option<String>, b: &Option<String>) -> (r: bool)
    ensures
        r == (text_of(*a) == text_of(*b)),
{
    match (a, b) {
        (Some(x), Some(y)) => same_text(x.as_str(), y.as_str()),
        (None, None) => true,
        _ => false,
    }
}

impl Clone for HostEntry {
    fn clone(&self) -> (r: HostEntry)
        ensures
            r@ == self@,
    {
        HostEntry {
            ip: self.ip,
            name: copy_text(&self.name),
            aliasses: match &self.aliasses {
                Some(a) => Some(copy_texts(a)),
                None => None,
            },
            comment: copy_text(&self.comment),
        }
    }
}

impl PartialEq for HostEntry {
    fn eq(&self, other: &HostEntry) -> (r: bool) {
        let same_ip = match (self.ip, other.ip) {
            (Some(a), Some(b)) => a == b,
            (None, None) => true,
            _ => false,
        };
        let same_aliasses = match (&self.aliasses, &other.aliasses) {
            (Some(a), Some(b)) => same_texts(a, b),
            (None, None) => true,
            _ => false,
        };
        same_ip && same_option(&self.name, &other.name) && same_aliasses && same_option(
            &self.comment,
            &other.comment,
        )
    }
}

impl std::str::FromStr for HostEntry {
    type Err = std::string::ParseError;

    /// The entry of the line `s`; no line is refused.
    fn from_str(s: &str) -> (r: Result<HostEntry, std::string::ParseError>)
        ensures
            r is Ok,
            r->Ok_0@ == line_record(s@),
    {
        Ok(HostEntry::from_line(s))
    }
}

impl PartialEqSpecImpl for HostEntry {
    open spec fn obeys_eq_spec() -> bool {
        true
    }

    open spec fn eq_spec(&self, other: &HostEntry) -> bool {
        self@ == other@
    }
}

impl HostEntry {
    /// The entry of a blank line.
    pub fn empty() -> (r: HostEntry)
        ensures
            r@ == Record::blank(),
    {
        HostEntry { ip: None, name: None, aliasses: None, comment: None }
    }

    /// Whether `hostname` is a strict subdomain of the entry's name, so that
    /// the entry's domain covers it.
    pub fn can_resolve_host(&self, hostname: &str) -> (r: bool)
        ensures
            r == self@.can_resolve_host(hostname@),
    {
        match &self.name {
            Some(n) => has_dot_suffix(hostname, n.as_str()),
            None => false,
        }
    }

    /// Whether `hostname` is a strict parent domain of the entry's name.
    pub fn can_hostname_resolve_domain(&self, hostname: &str) -> (r: bool)
        ensures
            r == self@.can_hostname_resolve_domain(hostname@),
    {
        match &self.name {
            Some(n) => has_dot_suffix(n.as_str(), hostname),
            None => false,
        }
    }

    /// Whether the entry's address is `ip`.
    pub fn has_ip(&self, ip: &IpAddress) -> (r: bool)
        ensures
            r == self@.has_ip(*ip),
    {
        match self.ip {
            Some(own) => own == *ip,
            None => false,
        }
    }

    /// Whether `hostname` is the entry's name or one of its aliases.
    pub fn has_name(&self, hostname: &str) -> (r: bool)
        ensures
            r == self@.has_name(hostname@),
    {
        if let Some(x) = &self.name {
            if same_text(x.as_str(), hostname) {
                return true;
            }
        }
        match &self.aliasses {
            Some(y) => contains_text(y, hostname),
            None => false,
        }
    }

    /// Appends `hostname` to the aliases, starting the list where there is
    /// none.
    pub fn add_alias(&mut self, hostname: &str)
        ensures
            final(self)@ == old(self)@.with_alias(hostname@),
    {
        let mut list: Vec<String> = match self.aliasses.take() {
            Some(a) => a,
            None => Vec::new(),
        };
        let ghost before = texts(list@);
        list.push(String::from_str(hostname));
        assert(texts(list@) =~= before.push(hostname@));
        assert(before =~= old(self)@.alias_list());
        self.aliasses = Some(list);
    }

    /// Where `hostname` is a parent domain of the entry's name, makes it the
    /// name and appends the former name to the aliases; else changes nothing.
    pub fn switch_name_with_alias(&mut self, hostname: &str)
        ensures
            final(self)@ == old(self)@.promoted(hostname@),
    {
        if self.can_hostname_resolve_domain(hostname) {
            let former = self.name.take();
            self.name = Some(String::from_str(hostname));
            match former {
                Some(t) => {
                    self.add_alias(t.as_str());
                },
                None => {},
            }
        }
    }

    /// Whether deleting `name` deletes the whole entry.
    pub fn can_delete(&self, name: &str) -> (r: bool)
        ensures
            r == self@.can_delete(name@),
    {
        let named = match &self.name {
            Some(n) => same_text(n.as_str(), name),
            None => false,
        };
        let bare = match &self.aliasses {
            Some(a) => a.len() == 0,
            None => true,
        };
        named && bare
    }

    /// Takes `name` from the entry: returns the entry that is left, and a
    /// tally that counts one update where a host record is left changed.
    pub fn remove_hostname(&self, name: &str) -> (r: (Modifications, HostEntry))
        ensures
            r.1@ == self@.without(name@),
            r.0.updated_entries == (if self@.loses(name@) { 1int } else { 0int }),
            r.0.removed_entries == 0,
            r.0.added_entries == 0,
    {
        let mut mods = Modifications::new();
        let named = match &self.name {
            Some(n) => same_text(n.as_str(), name),
            None => false,
        };
        if named {
            match &self.aliasses {
                Some(a) => {
                    if a.len() > 0 {
                        let k = shortest_position(a);
                        let heir = a[k].clone();
                        let others = remove_text(a, heir.as_str());
                        mods.updated_entries = 1;
                        return (
                            mods,
                            HostEntry {
                                ip: self.ip,
                                name: Some(heir),
                                aliasses: Some(others),
                                comment: copy_text(&self.comment),
                            },
                        );
                    }
                },
                None => {},
            }
            return (mods, HostEntry::empty());
        }
        if self.name.is_some() {
            match &self.aliasses {
                Some(a) => {
                    if contains_text(a, name) {
                        mods.updated_entries = 1;
                    }
                    return (
                        mods,
                        HostEntry {
                            ip: self.ip,
                            name: copy_text(&self.name),
                            aliasses: Some(remove_text(a, name)),
                            comment: copy_text(&self.comment),
                        },
                    );
                },
                None => {},
            }
        }
        (mods, self.clone())
    }

    /// The entry of a comment line, from the groups of its match.
    pub fn from_comment_captures(groups: &Vec<Option<String>>) -> (r: HostEntry)
        ensures
            r@ == comment_record(group_texts(groups@)),
    {
        HostEntry { ip: None, name: None, aliasses: None, comment: trimmed_at(groups, 1) }
    }

    /// The entry of a host line, from the groups of its match. A first group
    /// that denotes no address leaves the entry without one; name, aliases
    /// and comment are kept all the same.
    pub fn from_host_captures(groups: &Vec<Option<String>>) -> (r: HostEntry)
        ensures
            r@ == host_record(group_texts(groups@)),
    {
        let ip = if 1 < groups.len() {
            match &groups[1] {
                Some(t) => IpAddress::parse(t.as_str()),
                None => None,
            }
        } else {
            None
        };
        let aliasses = if 4 < groups.len() {
            match &groups[4] {
                Some(t) => Some(split_words(t.as_str())),
                None => None,
            }
        } else {
            None
        };
        HostEntry { ip, name: trimmed_at(groups, 2), aliasses, comment: trimmed_at(groups, 6) }
    }

    /// The entry of the line `s`. No line is refused: one that is neither a
    /// comment line nor a host line gives the blank entry.
    pub fn from_line(s: &str) -> (r: HostEntry)
        ensures
            r@ == line_record(s@),
    {
        match captures(COMMENT_LINE, s) {
            Some(groups) => HostEntry::from_comment_captures(&groups),
            None => match captures(HOST_LINE, s) {
                Some(groups) => HostEntry::from_host_captures(&groups),
                None => HostEntry::empty(),
            },
        }
    }

    /// The line that the entry is written as.
    pub fn to_string(&self) -> (r: String)
        ensures
            r@ == self@.render(),
    {
        match self.ip {
            None => match &self.comment {
                Some(c) => {
                    let mut out = String::from_str("# ");
                    out.append(c.as_str());
                    out
                },
                None => String::new(),
            },
            Some(ip) => {
                let mut out = ip.to_string();
                out.append("\t");
                let ghost start = out@;
                if let Some(n) = &self.name {
                    out.append(n.as_str());
                }
                let ghost named = out@;
                if let Some(a) = &self.aliasses {
                    out.append("\t");
                    out.append(join_words(a).as_str());
                }
                let ghost listed = out@;
                if let Some(c) = &self.comment {
                    out.append("\t# ");
                    out.append(c.as_str());
                }
                proof {
                    assert(named =~= start + (match self@.name {
                        Some(n) => n,
                        None => Seq::empty(),
                    }));
                    assert(listed =~= named + (match self@.aliasses {
                        Some(a) => "\t"@ + joined(a),
                        None => Seq::empty(),
                    }));
                    assert(out@ =~= listed + (match self@.comment {
                        Some(c) => "\t# "@ + c,
                        None => Seq::empty(),
                    }));
                }
                out
            },
        }
    }
}

} // verus!
