//! Where the broker keeps its lock and its socket, and what it accepts there.
use crate::bytes::copy_bytes;
use vstd::prelude::*;
use vstd::utf8::encode_utf8;

verus! {

/// The permissions of the runtime directory.
pub const DIRECTORY_MODE: u32 = 0o700;

/// The permissions of the lock and of the socket.
pub const FILE_MODE: u32 = 0o600;

/// The user that a process acts for.
#[derive(Debug)]
pub struct EffectiveUser {
    pub uid: u32,
    pub name: String,
    pub home: Vec<u8>,
}

impl Clone for EffectiveUser {
    fn clone(&self) -> (copy: Self)
        ensures
            copy.uid == self.uid,
            copy.name@ == self.name@,
            copy.home@ == self.home@,
    {
        EffectiveUser {
            uid: self.uid,
            name: self.name.clone(),
            home: copy_bytes(self.home.as_slice()),
        }
    }
}

/// A path below another: `name` behind one separator. A name that is an
/// absolute path stands for itself.
pub open spec fn path_below(base: Seq<u8>, name: Seq<u8>) -> Seq<u8> {
    if name.len() > 0 && name[0] == 0x2f {
        name
    } else if base.len() == 0 || base.last() == 0x2f {
        base + name
    } else {
        base.push(0x2f) + name
    }
}

/// A path below another, or `name` itself where it is absolute.
pub fn join_path(base: &[u8], name: &[u8]) -> (path: Vec<u8>)
    ensures
        path@ == path_below(base@, name@),
{
    if name.len() > 0 && name[0] == 0x2f {
        return copy_bytes(name);
    }
    let mut path = copy_bytes(base);
    if path.len() > 0 && path[path.len() - 1] != 0x2f {
        path.push(0x2f);
    }
    path.extend_from_slice(name);
    assert(path@ =~= path_below(base@, name@));
    path
}

/// The files that the broker works with.
#[derive(Debug)]
pub struct RuntimePaths {
    pub directory: Vec<u8>,
    pub lock: Vec<u8>,
    pub socket: Vec<u8>,
}

impl RuntimePaths {
    /// The lock and the socket stand in the directory, under their names.
    pub open spec fn are_in(&self, directory: Seq<u8>) -> bool {
        &&& self.directory@ == directory
        &&& self.lock@ == path_below(directory, encode_utf8("broker.lock"@))
        &&& self.socket@ == path_below(directory, encode_utf8("broker.sock"@))
    }

    /// The files in a user's caches, whatever the environment says.
    pub fn for_user(user: &EffectiveUser) -> (paths: Self)
        ensures
            paths.are_in(path_below(user.home@, encode_utf8("Library/Caches/opp/run"@))),
    {
        RuntimePaths::from_directory(join_path(&user.home, "Library/Caches/opp/run".as_bytes()))
    }

    /// The files in a directory.
    pub fn from_directory(directory: Vec<u8>) -> (paths: Self)
        ensures
            paths.are_in(directory@),
    {
        RuntimePaths {
            lock: join_path(&directory, "broker.lock".as_bytes()),
            socket: join_path(&directory, "broker.sock".as_bytes()),
            directory,
        }
    }
}

proof fn lemma_names()
    ensures
        encode_utf8("broker.lock"@).len() == 11,
        encode_utf8("broker.sock"@).len() == 11,
        encode_utf8("broker.lock"@)[0] != 0x2f,
        encode_utf8("broker.sock"@)[0] != 0x2f,
        encode_utf8("broker.lock"@)[7] != encode_utf8("broker.sock"@)[7],
{
    broadcast use vstd::utf8::is_ascii_chars_encode_utf8;

    reveal_strlit("broker.lock");
    reveal_strlit("broker.sock");
    assert(vstd::utf8::is_ascii_chars("broker.lock"@));
    assert(vstd::utf8::is_ascii_chars("broker.sock"@));
}

/// The lock and the socket are two files.
pub proof fn lock_and_socket_differ(paths: RuntimePaths, directory: Seq<u8>)
    requires
        paths.are_in(directory),
    ensures
        paths.lock@ != paths.socket@,
{
    lemma_names();
    let lock = encode_utf8("broker.lock"@);
    let socket = encode_utf8("broker.sock"@);
    let base = if directory.len() == 0 || directory.last() == 0x2f {
        directory
    } else {
        directory.push(0x2f)
    };
    assert((base + lock)[base.len() + 7int] == lock[7]);
    assert((base + socket)[base.len() + 7int] == socket[7]);
}

/// What the file system says of a path, without following a link at its end.
#[derive(Clone, Copy, Debug, PartialEq, Eq, Structural)]
pub struct FileFacts {
    pub is_directory: bool,
    pub is_file: bool,
    pub is_socket: bool,
    pub is_symlink: bool,
    pub uid: u32,
}

/// Whether the runtime directory is one, and the user's own.
pub fn verify_directory(facts: &FileFacts, uid: u32) -> (result: Result<(), &'static str>)
    ensures
        result is Ok <==> facts.is_directory && !facts.is_symlink && facts.uid == uid,
        result is Ok <==> is_own_directory(*facts, uid),
        result matches Err(message) ==> message@ == "unsafe broker runtime directory"@,
{
    if !facts.is_directory || facts.is_symlink || facts.uid != uid {
        Err("unsafe broker runtime directory")
    } else {
        Ok(())
    }
}

/// Whether the opened lock is a regular file of the user's own.
pub fn verify_lock(facts: &FileFacts, uid: u32) -> (result: Result<(), &'static str>)
    ensures
        result is Ok <==> facts.is_file && facts.uid == uid,
        result is Ok <==> is_own_file(*facts, uid),
        result matches Err(message) ==> message@ == "unsafe broker lock"@,
{
    if !facts.is_file || facts.uid != uid {
        Err("unsafe broker lock")
    } else {
        Ok(())
    }
}

/// Whether a file stands in the socket's place that can be removed: only a
/// socket of the user's own can.
pub fn stale_socket(facts: Option<FileFacts>, uid: u32) -> (removed: Result<bool, &'static str>)
    ensures
        match facts {
            None => removed == Result::<bool, &'static str>::Ok(false),
            Some(facts) => if facts.is_socket && facts.uid == uid {
                removed == Result::<bool, &'static str>::Ok(true)
            } else {
                removed matches Err(message) && message@ == "unsafe stale broker socket"@
            },
        },
        removed == Result::<bool, &'static str>::Ok(true) <==> may_be_removed(facts, uid),
{
    match facts {
        None => Ok(false),
        Some(facts) => {
            if !facts.is_socket || facts.uid != uid {
                Err("unsafe stale broker socket")
            } else {
                Ok(true)
            }
        },
    }
}

/// Whether the peer of a connection is the user itself.
pub fn verify_peer(uid: u32, expected_uid: u32) -> (result: Result<(), &'static str>)
    ensures
        result is Ok <==> uid == expected_uid,
        result is Ok <==> is_same_user(uid, expected_uid),
        result matches Err(message) ==> message@ == "broker peer user mismatch"@,
{
    if uid != expected_uid {
        Err("broker peer user mismatch")
    } else {
        Ok(())
    }
}

/// Why an operation on a file or a socket failed, as far as it matters.
#[derive(Clone, Copy, Debug, PartialEq, Eq, Structural)]
pub enum Failure {
    NotFound,
    ConnectionRefused,
    WouldBlock,
    Unsupported,
    Other,
}

/// Whether a failed connection shows that no broker runs.
pub fn is_absent_socket_error(failure: Failure) -> (absent: bool)
    ensures
        absent == (failure == Failure::NotFound || failure == Failure::ConnectionRefused),
        absent == shows_no_broker(failure),
{
    matches!(failure, Failure::NotFound | Failure::ConnectionRefused)
}

/// A name is joined to a directory with one separator, which is not doubled. An
/// absolute name stands for itself, and so does a name below no directory.
pub proof fn names_are_joined_to_directories(directory: Seq<u8>, name: Seq<u8>)
    ensures
        name.len() > 0 && name[0] == 0x2f ==> path_below(directory, name) == name,
        directory.len() == 0 ==> path_below(directory, name) == name,
        directory.len() > 0 && directory.last() == 0x2f && (name.len() == 0 || name[0] != 0x2f)
            ==> path_below(directory, name) == directory + name,
        directory.len() > 0 && directory.last() != 0x2f && (name.len() == 0 || name[0] != 0x2f)
            ==> path_below(directory, name) == directory + seq![0x2fu8] + name,
{
    assert(directory.len() == 0 ==> directory + name =~= name);
    assert(directory.push(0x2f) =~= directory + seq![0x2fu8]);
}

/// The lock and the socket stand in the directory that they are looked for in,
/// as `broker.lock` and `broker.sock`.
pub proof fn files_stand_in_their_directory(paths: RuntimePaths, directory: Seq<u8>)
    requires
        paths.are_in(directory),
        directory.len() > 0,
        directory.last() != 0x2f,
    ensures
        paths.directory@ == directory,
        paths.lock@ == directory + encode_utf8("/broker.lock"@),
        paths.socket@ == directory + encode_utf8("/broker.sock"@),
{
    lemma_names();
    lemma_slashes();
    let lock = encode_utf8("broker.lock"@);
    let socket = encode_utf8("broker.sock"@);
    assert(directory.push(0x2f) + lock =~= directory + (seq![0x2fu8] + lock));
    assert(directory.push(0x2f) + socket =~= directory + (seq![0x2fu8] + socket));
}

proof fn lemma_slashes()
    ensures
        encode_utf8("/broker.lock"@) == seq![0x2fu8] + encode_utf8("broker.lock"@),
        encode_utf8("/broker.sock"@) == seq![0x2fu8] + encode_utf8("broker.sock"@),
{
    broadcast use vstd::utf8::is_ascii_chars_encode_utf8;

    reveal_strlit("broker.lock");
    reveal_strlit("broker.sock");
    reveal_strlit("/broker.lock");
    reveal_strlit("/broker.sock");
    assert(vstd::utf8::is_ascii_chars("broker.lock"@));
    assert(vstd::utf8::is_ascii_chars("broker.sock"@));
    assert(vstd::utf8::is_ascii_chars("/broker.lock"@));
    assert(vstd::utf8::is_ascii_chars("/broker.sock"@));
    assert(encode_utf8("/broker.lock"@) =~= seq![0x2fu8] + encode_utf8("broker.lock"@));
    assert(encode_utf8("/broker.sock"@) =~= seq![0x2fu8] + encode_utf8("broker.sock"@));
}

/// A user's broker works below the user's own home.
pub proof fn runtime_directory_is_below_the_home(home: Seq<u8>)
    requires
        home.len() > 0,
        home.last() != 0x2f,
    ensures
        path_below(home, encode_utf8("Library/Caches/opp/run"@)) == home + encode_utf8(
            "/Library/Caches/opp/run"@,
        ),
{
    broadcast use vstd::utf8::is_ascii_chars_encode_utf8;

    reveal_strlit("Library/Caches/opp/run");
    reveal_strlit("/Library/Caches/opp/run");
    assert(vstd::utf8::is_ascii_chars("Library/Caches/opp/run"@));
    assert(vstd::utf8::is_ascii_chars("/Library/Caches/opp/run"@));
    assert(path_below(home, encode_utf8("Library/Caches/opp/run"@)) =~= home + encode_utf8(
        "/Library/Caches/opp/run"@,
    ));
}

/// A directory of the user's own, and no link to one.
pub open spec fn is_own_directory(facts: FileFacts, uid: u32) -> bool {
    facts.uid == uid && facts.is_directory && !facts.is_symlink
}

/// A regular file of the user's own.
pub open spec fn is_own_file(facts: FileFacts, uid: u32) -> bool {
    facts.uid == uid && facts.is_file
}

/// A socket of the user's own stands there.
pub open spec fn may_be_removed(facts: Option<FileFacts>, uid: u32) -> bool {
    facts is Some && facts->0.uid == uid && facts->0.is_socket
}

/// The peer is the user.
pub open spec fn is_same_user(uid: u32, expected_uid: u32) -> bool {
    uid == expected_uid
}

/// A failed connection that shows that no broker runs.
pub open spec fn shows_no_broker(failure: Failure) -> bool {
    match failure {
        Failure::NotFound | Failure::ConnectionRefused => true,
        _ => false,
    }
}

/// Nothing of another user is ever used or removed, and nobody else is served:
/// the runtime directory, the lock, the socket that is removed and the peer of
/// a connection are the user's own. A directory is not taken through a link,
/// and only a socket is removed.
pub proof fn only_the_users_own_is_used(facts: FileFacts, uid: u32, peer: u32)
    ensures
        is_own_directory(facts, uid) ==> facts.uid == uid,
        is_own_file(facts, uid) ==> facts.uid == uid,
        may_be_removed(Some(facts), uid) ==> facts.uid == uid,
        is_own_directory(facts, uid) ==> facts.is_directory && !facts.is_symlink,
        is_own_file(facts, uid) ==> facts.is_file,
        may_be_removed(Some(facts), uid) ==> facts.is_socket,
        !may_be_removed(None, uid),
        is_same_user(peer, uid) ==> peer == uid,
{
}

/// The user's own is not turned down: a directory, a lock and an old socket of
/// its kind, and a connection of the user itself.
pub proof fn the_users_own_is_accepted(facts: FileFacts, uid: u32)
    requires
        facts.uid == uid,
    ensures
        facts.is_directory && !facts.is_symlink ==> is_own_directory(facts, uid),
        facts.is_file ==> is_own_file(facts, uid),
        facts.is_socket ==> may_be_removed(Some(facts), uid),
        is_same_user(uid, uid),
{
}

/// That no broker runs is concluded from a missing socket and from one that
/// nobody listens on, and from nothing else.
pub proof fn absence_is_concluded_from_two_failures(failure: Failure)
    ensures
        shows_no_broker(Failure::NotFound),
        shows_no_broker(Failure::ConnectionRefused),
        shows_no_broker(failure) ==> failure is NotFound || failure is ConnectionRefused,
{
}

} // verus!
