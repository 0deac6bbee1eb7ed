//! The working directory and environment that a child process is given.
use crate::account::{optional_bytes, Account};
use crate::bytes::{copy_bytes, is_at, same_bytes, stands_at};
use crate::runtime::EffectiveUser;
use vstd::prelude::*;
use vstd::utf8::encode_utf8;

verus! {

/// The environment variable that names the selected account.
pub open spec fn account_key() -> Seq<u8> {
    encode_utf8("OP_ACCOUNT"@)
}

/// The environment variable that turns on desktop app integration.
pub open spec fn biometric_key() -> Seq<u8> {
    encode_utf8("OP_BIOMETRIC_UNLOCK_ENABLED"@)
}

/// Variables that no child sees: sessions and tokens of other ways to sign in,
/// and the reserved namespace.
pub open spec fn removed_key(key: Seq<u8>) -> bool {
    ||| key == encode_utf8("OP_SESSION"@)
    ||| stands_at(key, 0, encode_utf8("OP_SESSION_"@))
    ||| key == encode_utf8("OP_SERVICE_ACCOUNT_TOKEN"@)
    ||| key == encode_utf8("OP_CONNECT_HOST"@)
    ||| key == encode_utf8("OP_CONNECT_TOKEN"@)
    ||| stands_at(key, 0, encode_utf8("OPP_"@))
}

/// The keys and values of an environment.
pub open spec fn entries(environment: Seq<(Vec<u8>, Vec<u8>)>) -> Seq<(Seq<u8>, Seq<u8>)> {
    environment.map_values(|entry: (Vec<u8>, Vec<u8>)| (entry.0@, entry.1@))
}

/// Entries whose variable is not removed.
pub open spec fn allowed() -> spec_fn((Seq<u8>, Seq<u8>)) -> bool {
    |entry: (Seq<u8>, Seq<u8>)| !removed_key(entry.0)
}

/// Entries of other variables than `key`.
pub open spec fn other_than(key: Seq<u8>) -> spec_fn((Seq<u8>, Seq<u8>)) -> bool {
    |entry: (Seq<u8>, Seq<u8>)| entry.0 != key
}

/// Entries that a child has from the client, as they are.
pub open spec fn untouched() -> spec_fn((Seq<u8>, Seq<u8>)) -> bool {
    |entry: (Seq<u8>, Seq<u8>)|
        {
            &&& !removed_key(entry.0)
            &&& entry.0 != biometric_key()
            &&& entry.0 != account_key()
        }
}

/// The entry that selects an account, where one is selected.
pub open spec fn account_entry(account: Option<Seq<char>>) -> Seq<(Seq<u8>, Seq<u8>)> {
    match account {
        Some(selector) => seq![(account_key(), encode_utf8(selector))],
        None => Seq::empty(),
    }
}

/// The environment of a child: the client's untouched entries in their order,
/// then the forced ones.
pub open spec fn sanitized_entries(
    environment: Seq<(Seq<u8>, Seq<u8>)>,
    account: Option<Seq<char>>,
) -> Seq<(Seq<u8>, Seq<u8>)> {
    environment.filter(untouched()) + seq![(biometric_key(), encode_utf8("true"@))]
        + account_entry(account)
}

/// The environment of a check that no client asked for.
pub open spec fn maintenance_entries(
    home: Seq<u8>,
    name: Seq<char>,
    path: Seq<u8>,
    tmpdir: Option<Seq<u8>>,
    account: Option<Seq<char>>,
) -> Seq<(Seq<u8>, Seq<u8>)> {
    seq![
        (encode_utf8("HOME"@), home),
        (encode_utf8("USER"@), encode_utf8(name)),
        (encode_utf8("LOGNAME"@), encode_utf8(name)),
        (encode_utf8("PATH"@), path),
        (biometric_key(), encode_utf8("true"@)),
    ] + (match tmpdir {
        Some(directory) => seq![(encode_utf8("TMPDIR"@), directory)],
        None => Seq::empty(),
    }) + account_entry(account)
}

/// A working directory and an environment, as raw bytes.
#[derive(Debug)]
pub struct ClientContext {
    pub cwd: Vec<u8>,
    pub environment: Vec<(Vec<u8>, Vec<u8>)>,
}

/// What a context holds.
pub struct ContextView {
    pub cwd: Seq<u8>,
    pub environment: Seq<(Seq<u8>, Seq<u8>)>,
}

impl View for ClientContext {
    type V = ContextView;

    open spec fn view(&self) -> ContextView {
        ContextView { cwd: self.cwd@, environment: entries(self.environment@) }
    }
}

/// A copy of an environment.
fn copy_environment(environment: &Vec<(Vec<u8>, Vec<u8>)>) -> (copy: Vec<(Vec<u8>, Vec<u8>)>)
    ensures
        entries(copy@) == entries(environment@),
{
    let mut copy: Vec<(Vec<u8>, Vec<u8>)> = Vec::new();
    let mut index: usize = 0;
    while index < environment.len()
        invariant
            index <= environment.len(),
            copy.len() == index,
            forall|i: int|
                0 <= i < index ==> (#[trigger] copy@[i]).0@ == environment@[i].0@ && copy@[i].1@
                    == environment@[i].1@,
        decreases environment.len() - index,
    {
        copy.push((copy_bytes(&environment[index].0), copy_bytes(&environment[index].1)));
        index = index + 1;
    }
    assert(entries(copy@) =~= entries(environment@));
    copy
}

impl Clone for ClientContext {
    fn clone(&self) -> (copy: Self)
        ensures
            copy@ == self@,
    {
        ClientContext {
            cwd: copy_bytes(&self.cwd),
            environment: copy_environment(&self.environment),
        }
    }
}

impl ClientContext {
    /// The context of the invoking process, unless its working directory is
    /// not absolute.
    pub fn capture(cwd: Vec<u8>, environment: Vec<(Vec<u8>, Vec<u8>)>) -> (context: Option<
        ClientContext,
    >)
        ensures
            context is Some <==> cwd@.len() > 0 && cwd@[0] == 0x2f,
            context matches Some(captured) ==> captured.cwd == cwd && captured.environment
                == environment,
    {
        if cwd.len() > 0 && cwd[0] == 0x2f {
            Some(ClientContext { cwd, environment })
        } else {
            None
        }
    }

    /// The environment that a child is given for `account`.
    pub fn sanitized(&self, account: &Account) -> (environment: Vec<(Vec<u8>, Vec<u8>)>)
        ensures
            entries(environment@) == sanitized_entries(self@.environment, account@),
    {
        let mut environment: Vec<(Vec<u8>, Vec<u8>)> = Vec::new();
        let mut index: usize = 0;
        let ghost all = entries(self.environment@);
        proof {
            lemma_filter_take(all, allowed(), 0);
            assert(entries(environment@) =~= all.take(0).filter(allowed()));
        }
        while index < self.environment.len()
            invariant
                index <= self.environment.len(),
                all == entries(self.environment@),
                entries(environment@) == all.take(index as int).filter(allowed()),
            decreases self.environment.len() - index,
        {
            let ghost before = environment@;
            let entry = &self.environment[index];
            proof {
                lemma_filter_take(all, allowed(), index as int);
                assert(all[index as int] == (entry.0@, entry.1@));
            }
            if !is_removed(&entry.0) {
                environment.push((copy_bytes(&entry.0), copy_bytes(&entry.1)));
                assert(entries(environment@) =~= entries(before).push((entry.0@, entry.1@)));
            }
            index = index + 1;
        }
        assert(all.take(all.len() as int) =~= all);
        set(&mut environment, "OP_BIOMETRIC_UNLOCK_ENABLED".as_bytes(), "true".as_bytes());
        match account.explicit() {
            Some(selector) => set(&mut environment, "OP_ACCOUNT".as_bytes(), selector.as_bytes()),
            None => remove(&mut environment, "OP_ACCOUNT".as_bytes()),
        }
        proof {
            lemma_forced_entries(all, account@);
            assert(entries(environment@) =~= sanitized_entries(self@.environment, account@));
        }
        environment
    }

    /// The context of a maintenance check: the effective user's home and an
    /// environment derived from the user and the system alone.
    pub fn maintenance(
        user: &EffectiveUser,
        path: Vec<u8>,
        tmpdir: Option<Vec<u8>>,
        account: &Account,
    ) -> (context: ClientContext)
        ensures
            context@.cwd == user.home@,
            context@.environment == maintenance_entries(
                user.home@,
                user.name@,
                path@,
                optional_bytes(tmpdir),
                account@,
            ),
    {
        let mut environment: Vec<(Vec<u8>, Vec<u8>)> = Vec::new();
        environment.push((copy_bytes("HOME".as_bytes()), copy_bytes(&user.home)));
        environment.push((copy_bytes("USER".as_bytes()), copy_bytes(user.name.as_str().as_bytes())));
        environment.push((copy_bytes("LOGNAME".as_bytes()), copy_bytes(user.name.as_str().as_bytes())));
        environment.push((copy_bytes("PATH".as_bytes()), path));
        environment.push(
            (
                copy_bytes("OP_BIOMETRIC_UNLOCK_ENABLED".as_bytes()),
                copy_bytes("true".as_bytes()),
            ),
        );
        if let Some(directory) = tmpdir {
            environment.push((copy_bytes("TMPDIR".as_bytes()), directory));
        }
        if let Some(selector) = account.explicit() {
            environment.push((copy_bytes("OP_ACCOUNT".as_bytes()), copy_bytes(selector.as_bytes())));
        }
        let context = ClientContext { cwd: copy_bytes(&user.home), environment };
        assert(context@.environment =~= maintenance_entries(
            user.home@,
            user.name@,
            path@,
            optional_bytes(tmpdir),
            account@,
        ));
        context
    }
}

/// Whether a variable is kept from every child.
pub fn is_removed(key: &[u8]) -> (removed: bool)
    ensures
        removed == removed_key(key@),
{
    same_bytes(key, "OP_SESSION".as_bytes()) || is_at(key, 0, "OP_SESSION_".as_bytes())
        || same_bytes(key, "OP_SERVICE_ACCOUNT_TOKEN".as_bytes()) || same_bytes(
        key,
        "OP_CONNECT_HOST".as_bytes(),
    ) || same_bytes(key, "OP_CONNECT_TOKEN".as_bytes()) || is_at(key, 0, "OPP_".as_bytes())
}

/// Gives `key` one entry, the last, with `value`.
pub fn set(environment: &mut Vec<(Vec<u8>, Vec<u8>)>, key: &[u8], value: &[u8])
    ensures
        entries(final(environment)@) == entries(old(environment)@).filter(other_than(key@)).push(
            (key@, value@),
        ),
{
    remove(environment, key);
    let ghost before = environment@;
    environment.push((copy_bytes(key), copy_bytes(value)));
    assert(entries(environment@) =~= entries(before).push((key@, value@)));
}

/// Removes every entry of `key`.
pub fn remove(environment: &mut Vec<(Vec<u8>, Vec<u8>)>, key: &[u8])
    ensures
        entries(final(environment)@) == entries(old(environment)@).filter(other_than(key@)),
{
    let mut index: usize = 0;
    let ghost all = entries(environment@);
    let ghost mut seen: int = 0;
    proof {
        lemma_filter_take(all, other_than(key@), 0);
        assert(all.skip(0) =~= all);
        assert(entries(environment@) =~= all.take(0).filter(other_than(key@)) + all.skip(0));
    }
    while index < environment.len()
        invariant
            0 <= seen <= all.len(),
            index == all.take(seen).filter(other_than(key@)).len(),
            entries(environment@) == all.take(seen).filter(other_than(key@)) + all.skip(seen),
        decreases environment.len() - index,
    {
        let ghost before = environment@;
        let ghost kept = all.take(seen).filter(other_than(key@));
        let ghost next = all[seen];
        proof {
            lemma_filter_take(all, other_than(key@), seen);
            assert(entries(before).len() == kept.len() + all.len() - seen);
            assert(entries(before)[index as int] == next);
        }
        if same_bytes(&environment[index].0, key) {
            environment.remove(index);
            assert(entries(environment@) =~= entries(before).remove(index as int));
            assert(entries(environment@) =~= kept + all.skip(seen + 1));
        } else {
            index = index + 1;
            assert(entries(environment@) =~= kept.push(next) + all.skip(seen + 1));
        }
        proof {
            seen = seen + 1;
        }
    }
    proof {
        assert(entries(environment@).len() == index + all.len() - seen);
        assert(all.take(seen) =~= all);
        assert(entries(environment@) =~= all.filter(other_than(key@)));
    }
}

/// The search path of a maintenance check: the system default, where the
/// system names one.
pub fn system_path(configured: Option<Vec<u8>>) -> (path: Vec<u8>)
    ensures
        path@ == match configured {
            Some(value) => value@,
            None => encode_utf8("/usr/bin:/bin:/usr/sbin:/sbin"@),
        },
{
    match configured {
        Some(value) => value,
        None => copy_bytes("/usr/bin:/bin:/usr/sbin:/sbin".as_bytes()),
    }
}

/// Whether the size that the system gives for a configuration string, its
/// terminator counted, leaves room for a value.
pub fn has_configuration_value(length: usize) -> (usable: bool)
    ensures
        usable == (length > 1),
{
    length > 1
}

/// The configuration string in a buffer of which the system says that it needs
/// `written` bytes, the terminator counted.
pub fn configuration_value(buffer: Vec<u8>, written: usize) -> (value: Option<Vec<u8>>)
    ensures
        value is Some <==> 0 < written <= buffer@.len(),
        value matches Some(text) ==> text@ == buffer@.take(written - 1),
{
    if written == 0 || written > buffer.len() {
        return None;
    }
    let mut value = buffer;
    value.truncate(written - 1);
    Some(value)
}

/// A child sees every untouched variable of the client, with its value and in
/// its order, and no other variable but the forced ones.
pub proof fn sanitizing_keeps_the_untouched(
    environment: Seq<(Seq<u8>, Seq<u8>)>,
    account: Option<Seq<char>>,
)
    ensures
        sanitized_entries(environment, account).filter(untouched()) == environment.filter(
            untouched(),
        ),
        forall|i: int|
            0 <= i < sanitized_entries(environment, account).len() && !untouched()(
                #[trigger] sanitized_entries(environment, account)[i],
            ) ==> {
                ||| sanitized_entries(environment, account)[i].0 == biometric_key()
                ||| sanitized_entries(environment, account)[i].0 == account_key()
            },
{
    let kept = environment.filter(untouched());
    let forced = seq![(biometric_key(), encode_utf8("true"@))];
    lemma_filter_all(environment);
    Seq::filter_distributes_over_add(kept + forced, account_entry(account), untouched());
    Seq::filter_distributes_over_add(kept, forced, untouched());
    lemma_filter_single(forced[0], untouched());
    match account {
        Some(selector) => {
            lemma_filter_single((account_key(), encode_utf8(selector)), untouched());
        },
        None => {
            reveal(Seq::filter);
        },
    }
    assert(forced =~= seq![forced[0]]);
    assert(kept + Seq::<(Seq<u8>, Seq<u8>)>::empty() + Seq::<(Seq<u8>, Seq<u8>)>::empty() =~= kept);
    assert forall|i: int|
        0 <= i < sanitized_entries(environment, account).len() && !untouched()(
            #[trigger] sanitized_entries(environment, account)[i],
        ) implies sanitized_entries(environment, account)[i].0 == biometric_key()
        || sanitized_entries(environment, account)[i].0 == account_key() by {
        if i < kept.len() {
            environment.lemma_filter_pred(untouched(), i);
            assert(sanitized_entries(environment, account)[i] == kept[i]);
        }
    }
}

/// No child sees a removed variable. Exactly one entry turns on desktop app
/// integration, and exactly one names the account where one is selected; where
/// none is, no entry names an account.
pub proof fn sanitized_environment_is_safe(
    environment: Seq<(Seq<u8>, Seq<u8>)>,
    account: Option<Seq<char>>,
)
    ensures
        forall|i: int|
            0 <= i < sanitized_entries(environment, account).len() ==> !removed_key(
                (#[trigger] sanitized_entries(environment, account)[i]).0,
            ),
        forall|i: int|
            0 <= i < sanitized_entries(environment, account).len() ==> {
                &&& (#[trigger] sanitized_entries(environment, account)[i]).0 == biometric_key()
                    <==> i == environment.filter(untouched()).len()
                &&& sanitized_entries(environment, account)[i].0 == account_key() <==> i
                    == environment.filter(untouched()).len() + 1
            },
        sanitized_entries(environment, account).contains(
            (biometric_key(), encode_utf8("true"@)),
        ),
        account matches Some(selector) ==> sanitized_entries(environment, account).contains(
            (account_key(), encode_utf8(selector)),
        ),
{
    lemma_keys_differ();
    let kept = environment.filter(untouched());
    let all = sanitized_entries(environment, account);
    assert forall|i: int| 0 <= i < all.len() implies {
        &&& !removed_key((#[trigger] all[i]).0)
        &&& all[i].0 == biometric_key() <==> i == kept.len()
        &&& all[i].0 == account_key() <==> i == kept.len() + 1
    } by {
        if i < kept.len() {
            environment.lemma_filter_pred(untouched(), i);
            assert(all[i] == kept[i]);
        }
    }
    assert(all[kept.len() as int] == (biometric_key(), encode_utf8("true"@)));
    if let Some(selector) = account {
        assert(all[kept.len() as int + 1] == (account_key(), encode_utf8(selector)));
    }
}

/// Sanitizing an environment a second time for the same account changes
/// nothing.
pub proof fn sanitizing_is_idempotent(
    environment: Seq<(Seq<u8>, Seq<u8>)>,
    account: Option<Seq<char>>,
)
    ensures
        sanitized_entries(sanitized_entries(environment, account), account) == sanitized_entries(
            environment,
            account,
        ),
{
    sanitizing_keeps_the_untouched(environment, account);
}

/// A maintenance check runs with nothing but the user's home and name, the
/// system path, a temporary directory, desktop app integration and the account.
pub proof fn maintenance_environment_is_minimal(
    home: Seq<u8>,
    name: Seq<char>,
    path: Seq<u8>,
    tmpdir: Option<Seq<u8>>,
    account: Option<Seq<char>>,
)
    ensures
        forall|i: int|
            0 <= i < sanitized_entries(
                maintenance_entries(home, name, path, tmpdir, account),
                account,
            ).len() ==> {
                let entry = #[trigger] sanitized_entries(
                    maintenance_entries(home, name, path, tmpdir, account),
                    account,
                )[i];
                ||| entry == (encode_utf8("HOME"@), home)
                ||| entry == (encode_utf8("USER"@), encode_utf8(name))
                ||| entry == (encode_utf8("LOGNAME"@), encode_utf8(name))
                ||| entry == (encode_utf8("PATH"@), path)
                ||| tmpdir is Some && entry == (encode_utf8("TMPDIR"@), tmpdir->0)
                ||| entry == (biometric_key(), encode_utf8("true"@))
                ||| account is Some && entry == (account_key(), encode_utf8(account->0))
            },
{
    let all = maintenance_entries(home, name, path, tmpdir, account);
    let kept = all.filter(untouched());
    let result = sanitized_entries(all, account);
    assert forall|i: int| 0 <= i < result.len() implies {
        let entry = #[trigger] result[i];
        ||| entry == (encode_utf8("HOME"@), home)
        ||| entry == (encode_utf8("USER"@), encode_utf8(name))
        ||| entry == (encode_utf8("LOGNAME"@), encode_utf8(name))
        ||| entry == (encode_utf8("PATH"@), path)
        ||| tmpdir is Some && entry == (encode_utf8("TMPDIR"@), tmpdir->0)
        ||| entry == (biometric_key(), encode_utf8("true"@))
        ||| account is Some && entry == (account_key(), encode_utf8(account->0))
    } by {
        if i < kept.len() {
            assert(result[i] == kept[i]);
            assert(kept.contains(kept[i]));
            all.lemma_filter_contains_rev(untouched(), kept[i]);
            let j = choose|j: int| 0 <= j < all.len() && all[j] == kept[i];
            assert(all[j] == result[i]);
        }
    }
}

/// A variable that is kept from children: a session or a token of another way
/// to sign in, or one of the reserved namespace.
pub open spec fn is_kept_back(key: Seq<u8>) -> bool {
    ||| key == encode_utf8("OP_SESSION"@)
    ||| encode_utf8("OP_SESSION_"@).is_prefix_of(key)
    ||| key == encode_utf8("OP_SERVICE_ACCOUNT_TOKEN"@)
    ||| key == encode_utf8("OP_CONNECT_HOST"@)
    ||| key == encode_utf8("OP_CONNECT_TOKEN"@)
    ||| encode_utf8("OPP_"@).is_prefix_of(key)
}

/// An entry that a child has from its client.
pub open spec fn is_handed_on(entry: (Seq<u8>, Seq<u8>)) -> bool {
    &&& !is_kept_back(entry.0)
    &&& entry.0 != encode_utf8("OP_BIOMETRIC_UNLOCK_ENABLED"@)
    &&& entry.0 != encode_utf8("OP_ACCOUNT"@)
}

proof fn lemma_kept_back(key: Seq<u8>)
    ensures
        removed_key(key) == is_kept_back(key),
{
    let session = encode_utf8("OP_SESSION_"@);
    let reserved = encode_utf8("OPP_"@);
    if session.is_prefix_of(key) {
        assert(key.subrange(0, session.len() as int) =~= session);
    }
    if stands_at(key, 0, session) {
        assert(key.subrange(0, session.len() as int) == session);
        assert(session.is_prefix_of(key));
    }
    if reserved.is_prefix_of(key) {
        assert(key.subrange(0, reserved.len() as int) =~= reserved);
    }
    if stands_at(key, 0, reserved) {
        assert(key.subrange(0, reserved.len() as int) == reserved);
        assert(reserved.is_prefix_of(key));
    }
}

/// A child is handed on every entry of its client's environment, in the
/// client's order and with its value, but for the variables that are kept back
/// and the two that are forced. Of those, desktop app integration is turned on,
/// and the account is the selected one, or is not named at all. There is
/// nothing else.
pub proof fn child_environment_is_the_clients(
    environment: Seq<(Seq<u8>, Seq<u8>)>,
    account: Option<Seq<char>>,
)
    ensures
        ({
            let handed_on = |entry: (Seq<u8>, Seq<u8>)| is_handed_on(entry);
            let forced = (
                encode_utf8("OP_BIOMETRIC_UNLOCK_ENABLED"@),
                encode_utf8("true"@),
            );
            sanitized_entries(environment, account) == environment.filter(handed_on) + (
            match account {
                Some(selector) => seq![
                    forced,
                    (encode_utf8("OP_ACCOUNT"@), encode_utf8(selector)),
                ],
                None => seq![forced],
            })
        }),
{
    let handed_on = |entry: (Seq<u8>, Seq<u8>)| is_handed_on(entry);
    assert forall|entry: (Seq<u8>, Seq<u8>)| #[trigger] handed_on(entry) == untouched()(entry) by {
        lemma_kept_back(entry.0);
    }
    assert(handed_on =~= untouched());
    let forced = (encode_utf8("OP_BIOMETRIC_UNLOCK_ENABLED"@), encode_utf8("true"@));
    let kept = environment.filter(handed_on);
    match account {
        Some(selector) => {
            let named = (encode_utf8("OP_ACCOUNT"@), encode_utf8(selector));
            assert(kept + seq![forced] + seq![named] =~= kept + seq![forced, named]);
        },
        None => {
            assert(kept + seq![forced] + Seq::<(Seq<u8>, Seq<u8>)>::empty() =~= kept + seq![forced]);
        },
    }
}

/// A check that no client asked for has the user's home, twice the user's name,
/// the system's path, the temporary directory where there is one, and the
/// forced variables.
pub proof fn maintenance_environment_is_complete(
    home: Seq<u8>,
    name: Seq<char>,
    path: Seq<u8>,
    tmpdir: Option<Seq<u8>>,
    account: Option<Seq<char>>,
)
    ensures
        ({
            let all = maintenance_entries(home, name, path, tmpdir, account);
            &&& all.contains((encode_utf8("HOME"@), home))
            &&& all.contains((encode_utf8("USER"@), encode_utf8(name)))
            &&& all.contains((encode_utf8("LOGNAME"@), encode_utf8(name)))
            &&& all.contains((encode_utf8("PATH"@), path))
            &&& all.contains(
                (encode_utf8("OP_BIOMETRIC_UNLOCK_ENABLED"@), encode_utf8("true"@)),
            )
            &&& tmpdir matches Some(directory) ==> all.contains(
                (encode_utf8("TMPDIR"@), directory),
            )
            &&& account matches Some(selector) ==> all.contains(
                (encode_utf8("OP_ACCOUNT"@), encode_utf8(selector)),
            )
            &&& all.len() == 5 + (if tmpdir is Some {
                1int
            } else {
                0
            }) + (if account is Some {
                1int
            } else {
                0
            })
        }),
{
    let all = maintenance_entries(home, name, path, tmpdir, account);
    assert(all[0] == (encode_utf8("HOME"@), home));
    assert(all[1] == (encode_utf8("USER"@), encode_utf8(name)));
    assert(all[2] == (encode_utf8("LOGNAME"@), encode_utf8(name)));
    assert(all[3] == (encode_utf8("PATH"@), path));
    assert(all[4] == (encode_utf8("OP_BIOMETRIC_UNLOCK_ENABLED"@), encode_utf8("true"@)));
    if let Some(directory) = tmpdir {
        assert(all[5] == (encode_utf8("TMPDIR"@), directory));
    }
    if let Some(selector) = account {
        assert(all[all.len() - 1] == (encode_utf8("OP_ACCOUNT"@), encode_utf8(selector)));
    }
}

proof fn lemma_filter_all(environment: Seq<(Seq<u8>, Seq<u8>)>)
    ensures
        environment.filter(untouched()).filter(untouched()) == environment.filter(untouched()),
    decreases environment.len(),
{
    reveal(Seq::filter);
    if environment.len() > 0 {
        lemma_filter_all(environment.drop_last());
        let rest = environment.drop_last().filter(untouched());
        assert(rest.push(environment.last()).drop_last() =~= rest);
    }
}

proof fn lemma_filter_take(
    all: Seq<(Seq<u8>, Seq<u8>)>,
    pred: spec_fn((Seq<u8>, Seq<u8>)) -> bool,
    count: int,
)
    requires
        0 <= count <= all.len(),
    ensures
        count == 0 ==> all.take(count).filter(pred) == Seq::<(Seq<u8>, Seq<u8>)>::empty(),
        count < all.len() ==> all.take(count + 1).filter(pred) == if pred(all[count]) {
            all.take(count).filter(pred).push(all[count])
        } else {
            all.take(count).filter(pred)
        },
{
    reveal(Seq::filter);
    if count < all.len() {
        assert(all.take(count + 1).drop_last() =~= all.take(count));
        assert(all.take(count + 1).last() == all[count]);
    }
}

proof fn lemma_filter_single(entry: (Seq<u8>, Seq<u8>), pred: spec_fn((Seq<u8>, Seq<u8>)) -> bool)
    ensures
        seq![entry].filter(pred) == if pred(entry) {
            seq![entry]
        } else {
            Seq::empty()
        },
{
    reveal_with_fuel(Seq::filter, 2);
    assert(seq![entry].drop_last() =~= Seq::empty());
    assert(seq![entry].last() == entry);
    assert(Seq::<(Seq<u8>, Seq<u8>)>::empty().push(entry) =~= seq![entry]);
}

proof fn lemma_forced_entries(all: Seq<(Seq<u8>, Seq<u8>)>, account: Option<Seq<char>>)
    ensures
        all.filter(allowed()).filter(other_than(biometric_key())).push(
            (biometric_key(), encode_utf8("true"@)),
        ).filter(other_than(account_key())) + account_entry(account) == sanitized_entries(
            all,
            account,
        ),
{
    lemma_filters_combine(all);
    lemma_keys_differ();
    let first = all.filter(allowed()).filter(other_than(biometric_key()));
    let entry = (biometric_key(), encode_utf8("true"@));
    Seq::filter_distributes_over_add(first, seq![entry], other_than(account_key()));
    lemma_filter_single(entry, other_than(account_key()));
    assert(first.push(entry) =~= first + seq![entry]);
}

proof fn lemma_filters_combine(environment: Seq<(Seq<u8>, Seq<u8>)>)
    ensures
        environment.filter(allowed()).filter(other_than(biometric_key())).filter(
            other_than(account_key()),
        ) == environment.filter(untouched()),
    decreases environment.len(),
{
    reveal(Seq::filter);
    if environment.len() > 0 {
        let rest = environment.drop_last();
        lemma_filters_combine(rest);
        let last = environment.last();
        let one = rest.filter(allowed());
        let two = one.filter(other_than(biometric_key()));
        assert(one.push(last).drop_last() =~= one);
        assert(two.push(last).drop_last() =~= two);
    }
}

proof fn lemma_keys_differ()
    ensures
        account_key() != biometric_key(),
        !removed_key(account_key()),
        !removed_key(biometric_key()),
{
    let account = "OP_ACCOUNT";
    let biometric = "OP_BIOMETRIC_UNLOCK_ENABLED";
    reveal_strlit("OP_ACCOUNT");
    reveal_strlit("OP_BIOMETRIC_UNLOCK_ENABLED");
    reveal_strlit("OP_SESSION");
    reveal_strlit("OP_SESSION_");
    reveal_strlit("OP_SERVICE_ACCOUNT_TOKEN");
    reveal_strlit("OP_CONNECT_HOST");
    reveal_strlit("OP_CONNECT_TOKEN");
    reveal_strlit("OPP_");
    assert(vstd::utf8::is_ascii_chars("OP_ACCOUNT"@));
    assert(vstd::utf8::is_ascii_chars("OP_BIOMETRIC_UNLOCK_ENABLED"@));
    assert(vstd::utf8::is_ascii_chars("OP_SESSION"@));
    assert(vstd::utf8::is_ascii_chars("OP_SESSION_"@));
    assert(vstd::utf8::is_ascii_chars("OP_SERVICE_ACCOUNT_TOKEN"@));
    assert(vstd::utf8::is_ascii_chars("OP_CONNECT_HOST"@));
    assert(vstd::utf8::is_ascii_chars("OP_CONNECT_TOKEN"@));
    assert(vstd::utf8::is_ascii_chars("OPP_"@));
    broadcast use vstd::utf8::is_ascii_chars_encode_utf8;
    assert(account_key()[3] == 0x41);
    assert(biometric_key()[3] == 0x42);
    assert(encode_utf8("OP_SESSION"@)[3] == 0x53);
    assert(encode_utf8("OP_SESSION_"@)[3] == 0x53);
    assert(encode_utf8("OP_SERVICE_ACCOUNT_TOKEN"@)[3] == 0x53);
    assert(encode_utf8("OP_CONNECT_HOST"@)[3] == 0x43);
    assert(encode_utf8("OP_CONNECT_TOKEN"@)[3] == 0x43);
    assert(encode_utf8("OPP_"@)[2] == 0x50);
    assert(account_key()[2] == 0x5f);
    assert(biometric_key()[2] == 0x5f);
    if stands_at(account_key(), 0, encode_utf8("OP_SESSION_"@)) {
        assert(account_key().subrange(0, encode_utf8("OP_SESSION_"@).len() as int)[3] == 0x53);
    }
    if stands_at(account_key(), 0, encode_utf8("OPP_"@)) {
        assert(account_key().subrange(0, encode_utf8("OPP_"@).len() as int)[2] == 0x50);
    }
    if stands_at(biometric_key(), 0, encode_utf8("OP_SESSION_"@)) {
        assert(biometric_key().subrange(0, encode_utf8("OP_SESSION_"@).len() as int)[3] == 0x53);
    }
    if stands_at(biometric_key(), 0, encode_utf8("OPP_"@)) {
        assert(biometric_key().subrange(0, encode_utf8("OPP_"@).len() as int)[2] == 0x50);
    }
}

/// A context is seen whole: its working directory, and its variables in their
/// order, each with its value.
pub proof fn contexts_are_seen_whole(context: ClientContext)
    ensures
        context@.cwd == context.cwd@,
        context@.environment.len() == context.environment@.len(),
        forall|i: int|
            0 <= i < context.environment@.len() ==> {
                &&& (#[trigger] context@.environment[i]).0 == context.environment@[i].0@
                &&& context@.environment[i].1 == context.environment@[i].1@
            },
{
}

} // verus!
