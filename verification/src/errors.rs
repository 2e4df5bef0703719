//! The one closed error type of the library.

use vstd::prelude::*;
use vstd::string::*;

verus! {

/// Every way in which an operation on a hosts file can fail.
#[derive(Debug)]
pub enum ApplicationError {
    /// The hosts file could not be read; holds the reason.
    HostFileUnreadable(String),
    /// The hosts file could not be written; holds the reason.
    HostFileUnwritable(String),
    /// The backup copy could not be written; holds the reason.
    BackupFileWriteFailed(String),
    /// A text that should be an address is none.
    IpAddressConversion,
    /// No hostname was given.
    NoHostnameGiven,
    /// The pair of address and name exists already; holds the record's line.
    IpAlreadyInUse(String),
    /// The name belongs to another address; holds the record's line.
    HostnameAlreadyInUse(String),
    /// No record has this primary name; holds the name.
    HostnameDoesNotExist(String),
    /// A bare name was given and no record's domain covers it.
    NoParentDomain,
    /// A state that the program should never reach.
    FileABugReport,
    /// The file cannot be parsed; holds the reason.
    FileNotParseable(String),
    /// Any other failure of input or output; holds its message.
    IOError(String),
}

/// An error with each carried text as a sequence of characters.
pub enum Failure {
    HostFileUnreadable(Seq<char>),
    HostFileUnwritable(Seq<char>),
    BackupFileWriteFailed(Seq<char>),
    IpAddressConversion,
    NoHostnameGiven,
    IpAlreadyInUse(Seq<char>),
    HostnameAlreadyInUse(Seq<char>),
    HostnameDoesNotExist(Seq<char>),
    NoParentDomain,
    FileABugReport,
    FileNotParseable(Seq<char>),
    IOError(Seq<char>),
}

impl View for ApplicationError {
    type V = Failure;

    open spec fn view(&self) -> Failure {
        match self {
            ApplicationError::HostFileUnreadable(t) => Failure::HostFileUnreadable(t@),
            ApplicationError::HostFileUnwritable(t) => Failure::HostFileUnwritable(t@),
            ApplicationError::BackupFileWriteFailed(t) => Failure::BackupFileWriteFailed(t@),
            ApplicationError::IpAddressConversion => Failure::IpAddressConversion,
            ApplicationError::NoHostnameGiven => Failure::NoHostnameGiven,
            ApplicationError::IpAlreadyInUse(t) => Failure::IpAlreadyInUse(t@),
            ApplicationError::HostnameAlreadyInUse(t) => Failure::HostnameAlreadyInUse(t@),
            ApplicationError::HostnameDoesNotExist(t) => Failure::HostnameDoesNotExist(t@),
            ApplicationError::NoParentDomain => Failure::NoParentDomain,
            ApplicationError::FileABugReport => Failure::FileABugReport,
            ApplicationError::FileNotParseable(t) => Failure::FileNotParseable(t@),
            ApplicationError::IOError(t) => Failure::IOError(t@),
        }
    }
}

impl Failure {
    /// The sentence that tells a user of the failure.
    pub open spec fn message(self) -> Seq<char> {
        match self {
            Failure::HostFileUnreadable(t) => "hostfile is not readable. Reason: "@ + t,
            Failure::HostFileUnwritable(t) => "Failed to write the hostfile back to the file. Reason: "@
                + t,
            Failure::BackupFileWriteFailed(t) => "Failed to write backup file, refusing to overwrite original ("@
                + t + ")"@,
            Failure::IpAddressConversion => "Failed to convert the IP address, this is normally due to a typo or perhaps you gave a hostname instead?"@,
            Failure::NoHostnameGiven => "No hostname was given to be added to the hosts file. You should not see this message, if you do, please log an bug report at https://github.com/credmp/hed"@,
            Failure::IpAlreadyInUse(t) => "An ip address with this name already exists:\n"@ + t,
            Failure::HostnameAlreadyInUse(t) => "An entry exists with the hostname, but with a different IP:\n"@
                + t,
            Failure::HostnameDoesNotExist(t) => "No such hostname available in the hostfile: "@ + t,
            Failure::NoParentDomain => "Could not add host, no parent domain to resolve it. This means that no parent domain exists for the given hostname, try adding it with an IP address, it will be the first entry for this host."@,
            Failure::FileABugReport => "You should not see this message, if you do, please log an bug report at https://github.com/credmp/hed, it is very appreciated!"@,
            Failure::FileNotParseable(t) => "File is not parseable: "@ + t,
            Failure::IOError(t) => t,
        }
    }
}

/// `head` followed by `tail`.
fn sentence(head: &str, tail: &str) -> (r: String)
    ensures
        r@ == head@ + tail@,
{
    let mut out = String::from_str(head);
    out.append(tail);
    out
}

impl ApplicationError {
    /// The sentence that tells a user of the failure.
    pub fn to_string(&self) -> (r: String)
        ensures
            r@ == self@.message(),
    {
        match self {
            ApplicationError::HostFileUnreadable(t) => sentence(
                "hostfile is not readable. Reason: ",
                t.as_str(),
            ),
            ApplicationError::HostFileUnwritable(t) => sentence(
                "Failed to write the hostfile back to the file. Reason: ",
                t.as_str(),
            ),
            ApplicationError::BackupFileWriteFailed(t) => {
                let mut out = sentence(
                    "Failed to write backup file, refusing to overwrite original (",
                    t.as_str(),
                );
                out.append(")");
                out
            },
            ApplicationError::IpAddressConversion => String::from_str(
                "Failed to convert the IP address, this is normally due to a typo or perhaps you gave a hostname instead?",
            ),
            ApplicationError::NoHostnameGiven => String::from_str(
                "No hostname was given to be added to the hosts file. You should not see this message, if you do, please log an bug report at https://github.com/credmp/hed",
            ),
            ApplicationError::IpAlreadyInUse(t) => sentence(
                "An ip address with this name already exists:\n",
                t.as_str(),
            ),
            ApplicationError::HostnameAlreadyInUse(t) => sentence(
                "An entry exists with the hostname, but with a different IP:\n",
                t.as_str(),
            ),
            ApplicationError::HostnameDoesNotExist(t) => sentence(
                "No such hostname available in the hostfile: ",
                t.as_str(),
            ),
            ApplicationError::NoParentDomain => String::from_str(
                "Could not add host, no parent domain to resolve it. This means that no parent domain exists for the given hostname, try adding it with an IP address, it will be the first entry for this host.",
            ),
            ApplicationError::FileABugReport => String::from_str(
                "You should not see this message, if you do, please log an bug report at https://github.com/credmp/hed, it is very appreciated!",
            ),
            ApplicationError::FileNotParseable(t) => sentence("File is not parseable: ", t.as_str()),
            ApplicationError::IOError(t) => t.clone(),
        }
    }
}

} // verus!
