//! The receiving side's decisions: which protocol versions it accepts and
//! which entries of a directory listing it reports.
use vstd::prelude::*;

use self::errors::Errors;
use crate::file::File;
use crate::protocol::types::Command;
use crate::protocol::PROTOCOL_VERSION;

pub mod errors;

verus! {

/// Where the receiver keeps its files and where it listens.
pub struct Config {
    pub cache: String,
    pub tmp: String,
    pub listen: String,
}

/// Accepts a sender that speaks this side's protocol version and refuses
/// any other, naming both versions.
pub fn check_version(version: u8) -> (r: Result<(), Errors>)
    ensures
        r is Ok <==> version == PROTOCOL_VERSION,
        r is Err ==> r == Err::<(), Errors>(Errors::VersionMismatch(version, PROTOCOL_VERSION)),
{
    if version != PROTOCOL_VERSION {
        return Err(Errors::VersionMismatch(version, PROTOCOL_VERSION));
    }
    Ok(())
}

/// How the receiver answers a request.
pub enum Reply {
    /// Send the check-version reply; afterwards, if `refusal` is set, end
    /// the connection with that error.
    CheckVersion { refusal: Option<Errors> },
    /// Send the hashes cached under this prefix.
    ListDir { path: [u8; 2] },
    /// Store the file; nothing is sent back.
    SaveFile { file: File },
}

/// Decides how to answer a request: a check-version request is always
/// answered, and a sender of another version is refused after the answer.
pub fn reply_for(command: Command) -> (r: Reply)
    ensures
        match command {
            Command::CheckVersion { version } => r matches Reply::CheckVersion { refusal } && refusal == (if version
                == PROTOCOL_VERSION {
                None
            } else {
                Some(Errors::VersionMismatch(version, PROTOCOL_VERSION))
            }),
            Command::ListDir { path } => r matches Reply::ListDir { path: p } && p == path,
            Command::SaveFile { file } => r matches Reply::SaveFile { file: f } && f@ == file@,
        },
{
    match command {
        Command::CheckVersion { version } => {
            let refusal = match check_version(version) {
                Ok(()) => None,
                Err(e) => Some(e),
            };
            Reply::CheckVersion { refusal }
        },
        Command::ListDir { path } => Reply::ListDir { path },
        Command::SaveFile { file } => Reply::SaveFile { file },
    }
}

/// The hashes among directory entries: entries that carry none are left
/// out, the others kept in order.
pub open spec fn spec_listed(entries: Seq<Option<[u8; 20]>>) -> Seq<[u8; 20]>
    decreases entries.len(),
{
    if entries.len() == 0 {
        Seq::empty()
    } else {
        let init = spec_listed(entries.drop_last());
        match entries.last() {
            Some(h) => init.push(h),
            None => init,
        }
    }
}

/// Reporting a listing entry by entry: no entries report nothing, an entry
/// with a hash appends that hash, an entry without one appends nothing.
pub proof fn lemma_listed_steps(entries: Seq<Option<[u8; 20]>>, h: [u8; 20])
    ensures
        spec_listed(Seq::empty()) == Seq::<[u8; 20]>::empty(),
        spec_listed(entries.push(Some(h))) == spec_listed(entries).push(h),
        spec_listed(entries.push(None)) == spec_listed(entries),
{
    assert(entries.push(Some(h)).drop_last() =~= entries);
    assert(entries.push(None).drop_last() =~= entries);
}

/// The report of two listings one after the other is the report of the
/// first followed by that of the second; none is lost or reordered.
pub proof fn lemma_listed_concat(a: Seq<Option<[u8; 20]>>, b: Seq<Option<[u8; 20]>>)
    ensures
        spec_listed(a + b) == spec_listed(a) + spec_listed(b),
        spec_listed(a).len() <= a.len(),
    decreases b.len() + a.len(),
{
    if b.len() == 0 {
        assert(a + b =~= a);
        assert(spec_listed(b) =~= Seq::<[u8; 20]>::empty());
        if a.len() > 0 {
            lemma_listed_concat(a.drop_last(), b);
        }
    } else {
        lemma_listed_concat(a, b.drop_last());
        assert((a + b).drop_last() =~= a + b.drop_last());
        assert((a + b).last() == b.last());
        match b.last() {
            Some(h) => {
                assert(spec_listed(a + b) =~= spec_listed(a) + spec_listed(b));
            },
            None => {},
        }
    }
}

/// Keeps the hashes of the directory entries that carry one, in order.
pub fn listed_hashes(entries: &[Option<[u8; 20]>]) -> (r: Vec<[u8; 20]>)
    ensures
        r@ == spec_listed(entries@),
{
    let mut r: Vec<[u8; 20]> = Vec::new();
    let mut i: usize = 0;
    assert(entries@.take(0) =~= Seq::<Option<[u8; 20]>>::empty());
    while i < entries.len()
        invariant
            0 <= i <= entries@.len(),
            r@ == spec_listed(entries@.take(i as int)),
        decreases entries@.len() - i,
    {
        proof {
            assert(entries@.take(i + 1).drop_last() =~= entries@.take(i as int));
            assert(entries@.take(i + 1).last() == entries@[i as int]);
        }
        match entries[i] {
            Some(h) => r.push(h),
            None => {},
        }
        i = i + 1;
    }
    assert(entries@.take(entries@.len() as int) =~= entries@);
    r
}

} // verus!
