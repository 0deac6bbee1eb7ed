//! What `opp status` reports, and the times in it.
use crate::bytes::same_text;
use crate::json::{
    as_member, distinct_names, field_views, is_read_as, json_members, json_object, member_views,
    read_object, write_object, Field, FieldView, Member, MemberView,
};
use crate::VERSION;
use vstd::prelude::*;

verus! {

/// The first instant of the year 0, in nanoseconds from the Unix epoch.
pub const FIRST_INSTANT: i128 = -62_167_219_200_000_000_000;

/// The first instant of the year 10000, in nanoseconds from the Unix epoch.
pub const END_OF_TIME: i128 = 253_402_300_800_000_000_000;

/// The state of the broker and of one account.
#[derive(Debug)]
pub struct Status {
    pub schema_version: u8,
    pub running: bool,
    pub authorization: Option<&'static str>,
    pub account_selector: Option<String>,
    pub op_path: Option<String>,
    pub broker_version: Option<&'static str>,
    pub started_at: Option<String>,
    pub authorized_at: Option<String>,
    pub hard_expires_at: Option<String>,
    pub next_probe_at: Option<String>,
}

/// What a status holds.
pub struct StatusView {
    pub schema_version: u8,
    pub running: bool,
    pub authorization: Option<Seq<char>>,
    pub account_selector: Option<Seq<char>>,
    pub op_path: Option<Seq<char>>,
    pub broker_version: Option<Seq<char>>,
    pub started_at: Option<Seq<char>>,
    pub authorized_at: Option<Seq<char>>,
    pub hard_expires_at: Option<Seq<char>>,
    pub next_probe_at: Option<Seq<char>>,
}

/// The characters of an optional string.
pub open spec fn optional_text(text: Option<String>) -> Option<Seq<char>> {
    match text {
        Some(text) => Some(text@),
        None => None,
    }
}

/// The characters of an optional literal.
pub open spec fn optional_literal(text: Option<&'static str>) -> Option<Seq<char>> {
    match text {
        Some(text) => Some(text@),
        None => None,
    }
}

impl View for Status {
    type V = StatusView;

    open spec fn view(&self) -> StatusView {
        StatusView {
            schema_version: self.schema_version,
            running: self.running,
            authorization: optional_literal(self.authorization),
            account_selector: optional_text(self.account_selector),
            op_path: optional_text(self.op_path),
            broker_version: optional_literal(self.broker_version),
            started_at: optional_text(self.started_at),
            authorized_at: optional_text(self.authorized_at),
            hard_expires_at: optional_text(self.hard_expires_at),
            next_probe_at: optional_text(self.next_probe_at),
        }
    }
}

/// The status of a broker that is not there.
pub open spec fn stopped_status() -> StatusView {
    StatusView {
        schema_version: 1,
        running: false,
        authorization: None,
        account_selector: None,
        op_path: None,
        broker_version: None,
        started_at: None,
        authorized_at: None,
        hard_expires_at: None,
        next_probe_at: None,
    }
}

/// The status of a running broker for an account that is not authorized.
pub open spec fn running_status(account_selector: Option<Seq<char>>, op_path: Seq<char>) -> StatusView {
    StatusView {
        schema_version: 1,
        running: true,
        authorization: Some("reauthorization_required"@),
        account_selector,
        op_path: Some(op_path),
        broker_version: Some(VERSION@),
        started_at: None,
        authorized_at: None,
        hard_expires_at: None,
        next_probe_at: None,
    }
}

/// The names of a status object's members, in their order.
pub open spec fn member_name(index: int) -> Seq<char> {
    if index == 0 {
        "schema_version"@
    } else if index == 1 {
        "running"@
    } else if index == 2 {
        "authorization"@
    } else if index == 3 {
        "account_selector"@
    } else if index == 4 {
        "op_path"@
    } else if index == 5 {
        "broker_version"@
    } else if index == 6 {
        "started_at"@
    } else if index == 7 {
        "authorized_at"@
    } else if index == 8 {
        "hard_expires_at"@
    } else {
        "next_probe_at"@
    }
}

/// The value of one of a status object's members, if it is there.
pub open spec fn member_value(status: StatusView, index: int) -> Option<FieldView> {
    if index == 0 {
        Some(FieldView::Number(status.schema_version as u64))
    } else if index == 1 {
        Some(FieldView::Flag(status.running))
    } else {
        let text = if index == 2 {
            status.authorization
        } else if index == 3 {
            status.account_selector
        } else if index == 4 {
            status.op_path
        } else if index == 5 {
            status.broker_version
        } else if index == 6 {
            status.started_at
        } else if index == 7 {
            status.authorized_at
        } else if index == 8 {
            status.hard_expires_at
        } else {
            status.next_probe_at
        };
        match text {
            Some(text) => Some(FieldView::Text(text)),
            None => None,
        }
    }
}

/// The first `count` members of a status object, without those that are not
/// there.
pub open spec fn first_members(status: StatusView, count: nat) -> Seq<(Seq<char>, FieldView)>
    decreases count,
{
    if count == 0 {
        Seq::empty()
    } else {
        let before = first_members(status, (count - 1) as nat);
        match member_value(status, count - 1) {
            Some(value) => before.push((member_name(count - 1), value)),
            None => before,
        }
    }
}

/// The members of a status object.
pub open spec fn status_members(status: StatusView) -> Seq<(Seq<char>, FieldView)> {
    first_members(status, 10)
}

/// An object that a client takes for a status: its version is 1, and it says
/// whether the broker runs.
pub open spec fn is_status(members: Seq<(Seq<char>, MemberView)>) -> bool {
    &&& members.contains(("schema_version"@, MemberView::Number(Some(1))))
    &&& exists|i: int|
        0 <= i < members.len() && (#[trigger] members[i]).0 == "running"@ && members[i].1 is Flag
}

impl Status {
    /// The status of a broker that is not there.
    pub fn stopped() -> (status: Self)
        ensures
            status@ == stopped_status(),
    {
        Status {
            schema_version: 1,
            running: false,
            authorization: None,
            account_selector: None,
            op_path: None,
            broker_version: None,
            started_at: None,
            authorized_at: None,
            hard_expires_at: None,
            next_probe_at: None,
        }
    }

    /// The status of a running broker for an account that is not authorized.
    pub fn running(account_selector: Option<String>, op_path: String) -> (status: Self)
        ensures
            status@ == running_status(optional_text(account_selector), op_path@),
    {
        Status {
            schema_version: 1,
            running: true,
            authorization: Some("reauthorization_required"),
            account_selector,
            op_path: Some(op_path),
            broker_version: Some(VERSION),
            started_at: None,
            authorized_at: None,
            hard_expires_at: None,
            next_probe_at: None,
        }
    }

    /// The compact JSON text of the status. It is read back with the members
    /// that were written and no others. Every status of version 1 that is
    /// written is one that `valid_json` accepts.
    pub fn json(&self) -> (json: Option<Vec<u8>>)
        ensures
            json is Some,
            json->0@ == json_object(status_members(self@)),
            is_read_as(json->0@, status_members(self@)),
            self.schema_version == 1 ==> (json_members(json->0@) matches Some(members)
                && is_status(members)),
    {
        let mut fields: Vec<(&'static str, Field)> = Vec::new();
        assert(field_views(fields@) =~= first_members(self@, 0));
        fields.push(("schema_version", Field::Number(self.schema_version as u64)));
        assert(field_views(fields@) =~= first_members(self@, 1));
        fields.push(("running", Field::Flag(self.running)));
        assert(field_views(fields@) =~= first_members(self@, 2));
        push_literal(&mut fields, "authorization", self.authorization);
        assert(field_views(fields@) == first_members(self@, 3));
        push_text(&mut fields, "account_selector", &self.account_selector);
        assert(field_views(fields@) == first_members(self@, 4));
        push_text(&mut fields, "op_path", &self.op_path);
        assert(field_views(fields@) == first_members(self@, 5));
        push_literal(&mut fields, "broker_version", self.broker_version);
        assert(field_views(fields@) == first_members(self@, 6));
        push_text(&mut fields, "started_at", &self.started_at);
        assert(field_views(fields@) == first_members(self@, 7));
        push_text(&mut fields, "authorized_at", &self.authorized_at);
        assert(field_views(fields@) == first_members(self@, 8));
        push_text(&mut fields, "hard_expires_at", &self.hard_expires_at);
        assert(field_views(fields@) == first_members(self@, 9));
        push_text(&mut fields, "next_probe_at", &self.next_probe_at);
        assert(field_views(fields@) == first_members(self@, 10));
        let ghost all = field_views(fields@);
        proof {
            lemma_names_distinct(self@, 10);
            lemma_leading_members(self@, 10);
        }
        let json = write_object(&fields);
        proof {
            assert(as_member(all[0]) == (
                "schema_version"@,
                MemberView::Number(Some(self.schema_version as u64)),
            ));
            let running = ("running"@, MemberView::Flag(self.running));
            assert(as_member(all[1]) == running);
            let members = json_members(json->0@)->0;
            let i = choose|i: int| 0 <= i < members.len() && members[i] == running;
            assert(members[i].0 == "running"@);
        }
        json
    }

    /// Whether a text is a status that a client passes on.
    pub fn valid_json(json: &[u8]) -> (valid: bool)
        ensures
            valid == (json_members(json@) matches Some(members) && is_status(members)),
    {
        match read_object(json) {
            Some(members) => has_status_members(&members),
            None => false,
        }
    }
}

/// Whether the members of an object are those of a status.
pub fn has_status_members(members: &Vec<(String, Member)>) -> (valid: bool)
    ensures
        valid == is_status(member_views(members@)),
{
    let mut versioned = false;
    let mut stated = false;
    let mut index: usize = 0;
    let ghost all = member_views(members@);
    while index < members.len()
        invariant
            index <= members.len(),
            all == member_views(members@),
            versioned == (exists|i: int|
                0 <= i < index && #[trigger] all[i] == (
                    "schema_version"@,
                    MemberView::Number(Some(1)),
                )),
            stated == (exists|i: int|
                0 <= i < index && (#[trigger] all[i]).0 == "running"@ && all[i].1 is Flag),
        decreases members.len() - index,
    {
        let ghost current = all[index as int];
        if same_text(members[index].0.as_str(), "schema_version") {
            if let Member::Number(Some(1)) = members[index].1 {
                versioned = true;
                assert(current == ("schema_version"@, MemberView::Number(Some(1u64))));
            }
        }
        if same_text(members[index].0.as_str(), "running") {
            if let Member::Flag(_) = members[index].1 {
                stated = true;
            }
        }
        index = index + 1;
    }
    versioned && stated
}

/// Appends a member with a string value, if there is one.
fn push_text(fields: &mut Vec<(&'static str, Field)>, name: &'static str, value: &Option<String>)
    ensures
        field_views(final(fields)@) == match *value {
            Some(text) => field_views(old(fields)@).push((name@, FieldView::Text(text@))),
            None => field_views(old(fields)@),
        },
{
    if let Some(text) = value {
        fields.push((name, Field::Text(text.clone())));
        assert(field_views(fields@) =~= field_views(old(fields)@).push(
            (name@, FieldView::Text(text@)),
        ));
    }
}

/// Appends a member with a literal value, if there is one.
fn push_literal(
    fields: &mut Vec<(&'static str, Field)>,
    name: &'static str,
    value: Option<&'static str>,
)
    ensures
        field_views(final(fields)@) == match value {
            Some(text) => field_views(old(fields)@).push((name@, FieldView::Text(text@))),
            None => field_views(old(fields)@),
        },
{
    if let Some(text) = value {
        fields.push((name, Field::Text(text.to_owned())));
        assert(field_views(fields@) =~= field_views(old(fields)@).push(
            (name@, FieldView::Text(text@)),
        ));
    }
}

/// The RFC 3339 text of an instant in UTC, given in nanoseconds from the Unix
/// epoch; nothing for a year that has no four digits.
pub uninterp spec fn rfc3339(nanos: int) -> Option<Seq<char>>;

/// `time::OffsetDateTime::format` with `Rfc3339`, of the instant that lies
/// `nanos` nanoseconds from the Unix epoch. There is a text exactly for the
/// years from 0 through 9999.
#[verifier::external_body]
fn rfc3339_text(nanos: i128) -> (text: Option<String>)
    ensures
        optional_text(text) == rfc3339(nanos as int),
        text is Some <==> FIRST_INSTANT <= nanos < END_OF_TIME,
{
    let instant = time::OffsetDateTime::from_unix_timestamp_nanos(nanos).ok()?;
    instant.format(&time::format_description::well_known::Rfc3339).ok()
}

/// The text of an instant, given in nanoseconds from the Unix epoch.
pub fn format_time(nanos: i128) -> (text: Option<String>)
    ensures
        optional_text(text) == rfc3339(nanos as int),
        text is Some <==> FIRST_INSTANT <= nanos < END_OF_TIME,
{
    rfc3339_text(nanos)
}

proof fn lemma_member_names()
    ensures
        forall|i: int, j: int| 0 <= i < j < 10 ==> #[trigger] member_name(i) != #[trigger] member_name(j),
{
    reveal_strlit("schema_version");
    reveal_strlit("running");
    reveal_strlit("authorization");
    reveal_strlit("account_selector");
    reveal_strlit("op_path");
    reveal_strlit("broker_version");
    reveal_strlit("started_at");
    reveal_strlit("authorized_at");
    reveal_strlit("hard_expires_at");
    reveal_strlit("next_probe_at");
    assert("schema_version"@.len() == 14 && "running"@.len() == 7 && "authorization"@.len() == 13);
    assert("account_selector"@.len() == 16 && "op_path"@.len() == 7);
    assert("broker_version"@.len() == 14 && "started_at"@.len() == 10);
    assert("authorized_at"@.len() == 13 && "hard_expires_at"@.len() == 15);
    assert("next_probe_at"@.len() == 13);
    assert("schema_version"@[0] == 's' && "broker_version"@[0] == 'b');
    assert("running"@[0] == 'r' && "op_path"@[0] == 'o');
    assert("authorization"@[8] == 'a' && "authorized_at"@[8] == 'e');
    assert("next_probe_at"@[0] == 'n' && "authorized_at"@[0] == 'a' && "authorization"@[0] == 'a');
}

/// An object has a member of the name exactly where there is a value, and it
/// has that value and no other.
pub open spec fn has_member(
    members: Seq<(Seq<char>, FieldView)>,
    name: Seq<char>,
    value: Option<FieldView>,
) -> bool {
    forall|found: FieldView| #[trigger] members.contains((name, found)) <==> value == Some(found)
}

/// The value of a member with a text, where there is one.
pub open spec fn text_value(text: Option<Seq<char>>) -> Option<FieldView> {
    match text {
        Some(text) => Some(FieldView::Text(text)),
        None => None,
    }
}

/// Each part of a status is a member of its own, under its name and with its
/// value. A part that is not there is no member, and there are no others.
pub proof fn status_has_its_members(status: StatusView)
    ensures
        ({
            let members = status_members(status);
            &&& has_member(
                members,
                "schema_version"@,
                Some(FieldView::Number(status.schema_version as u64)),
            )
            &&& has_member(members, "running"@, Some(FieldView::Flag(status.running)))
            &&& has_member(members, "authorization"@, text_value(status.authorization))
            &&& has_member(members, "account_selector"@, text_value(status.account_selector))
            &&& has_member(members, "op_path"@, text_value(status.op_path))
            &&& has_member(members, "broker_version"@, text_value(status.broker_version))
            &&& has_member(members, "started_at"@, text_value(status.started_at))
            &&& has_member(members, "authorized_at"@, text_value(status.authorized_at))
            &&& has_member(members, "hard_expires_at"@, text_value(status.hard_expires_at))
            &&& has_member(members, "next_probe_at"@, text_value(status.next_probe_at))
            &&& distinct_names(members)
            &&& forall|i: int|
                0 <= i < members.len() ==> is_member_name(#[trigger] members[i].0)
        }),
{
    let members = status_members(status);
    lemma_member_names();
    lemma_names_distinct(status, 10);
    assert forall|k: int| 0 <= k < 10 implies has_member(
        members,
        #[trigger] member_name(k),
        member_value(status, k),
    ) by {
        assert forall|found: FieldView| #[trigger]
            members.contains((member_name(k), found)) <==> member_value(status, k) == Some(
                found,
            ) by {
            lemma_member_found(status, 10, k, found);
        }
    }
    assert(has_member(members, member_name(0), member_value(status, 0)));
    assert(has_member(members, member_name(1), member_value(status, 1)));
    assert(has_member(members, member_name(2), member_value(status, 2)));
    assert(has_member(members, member_name(3), member_value(status, 3)));
    assert(has_member(members, member_name(4), member_value(status, 4)));
    assert(has_member(members, member_name(5), member_value(status, 5)));
    assert(has_member(members, member_name(6), member_value(status, 6)));
    assert(has_member(members, member_name(7), member_value(status, 7)));
    assert(has_member(members, member_name(8), member_value(status, 8)));
    assert(has_member(members, member_name(9), member_value(status, 9)));
    assert forall|i: int| 0 <= i < members.len() implies is_member_name(
        #[trigger] members[i].0,
    ) by {
        let name = members[i];
    }
}

/// The name of a member that a status can have.
pub open spec fn is_member_name(name: Seq<char>) -> bool {
    ||| name == "schema_version"@
    ||| name == "running"@
    ||| name == "authorization"@
    ||| name == "account_selector"@
    ||| name == "op_path"@
    ||| name == "broker_version"@
    ||| name == "started_at"@
    ||| name == "authorized_at"@
    ||| name == "hard_expires_at"@
    ||| name == "next_probe_at"@
}

proof fn lemma_member_found(status: StatusView, count: nat, k: int, found: FieldView)
    requires
        count <= 10,
        0 <= k < 10,
    ensures
        first_members(status, count).contains((member_name(k), found)) <==> k < count
            && member_value(status, k) == Some(found),
    decreases count,
{
    lemma_member_names();
    if count > 0 {
        lemma_member_found(status, (count - 1) as nat, k, found);
        let before = first_members(status, (count - 1) as nat);
        let all = first_members(status, count);
        let wanted = (member_name(k), found);
        if all.contains(wanted) {
            let i = choose|i: int| 0 <= i < all.len() && all[i] == wanted;
            if i < before.len() {
                assert(before[i] == wanted);
            } else {
                assert(member_name(count - 1) == member_name(k));
                assert(k == count - 1);
            }
        }
        if before.contains(wanted) {
            let i = choose|i: int| 0 <= i < before.len() && before[i] == wanted;
            assert(all[i] == wanted);
        }
        if k == count - 1 && member_value(status, k) == Some(found) {
            assert(all[before.len() as int] == wanted);
        }
    }
}

/// What a status of a stopped broker says, and what one of a running broker
/// says before anything is known of the account's grant.
pub proof fn plain_statuses_say_what_is_known(
    account_selector: Option<Seq<char>>,
    op_path: Seq<char>,
)
    ensures
        ({
            let stopped = stopped_status();
            &&& stopped.schema_version == 1 && !stopped.running
            &&& stopped.authorization is None && stopped.account_selector is None
            &&& stopped.op_path is None && stopped.broker_version is None
            &&& stopped.started_at is None && stopped.authorized_at is None
            &&& stopped.hard_expires_at is None && stopped.next_probe_at is None
        }),
        ({
            let running = running_status(account_selector, op_path);
            &&& running.schema_version == 1 && running.running
            &&& running.authorization == Some("reauthorization_required"@)
            &&& running.account_selector == account_selector
            &&& running.op_path == Some(op_path)
            &&& running.broker_version == Some("0.1.0"@)
            &&& running.started_at is None && running.authorized_at is None
            &&& running.hard_expires_at is None && running.next_probe_at is None
        }),
{
}

/// A client takes for a status exactly what has version 1 and says whether the
/// broker runs.
pub proof fn status_is_recognized(members: Seq<(Seq<char>, MemberView)>)
    ensures
        is_status(members) <==> {
            &&& members.contains(("schema_version"@, MemberView::Number(Some(1))))
            &&& members.contains(("running"@, MemberView::Flag(true))) || members.contains(
                ("running"@, MemberView::Flag(false)),
            )
        },
{
    if is_status(members) {
        let i = choose|i: int|
            0 <= i < members.len() && (#[trigger] members[i]).0 == "running"@ && members[i].1
                is Flag;
        let flag = members[i].1->Flag_0;
        assert(members[i] == ("running"@, MemberView::Flag(flag)));
    }
    if members.contains(("running"@, MemberView::Flag(true))) {
        let i = choose|i: int|
            0 <= i < members.len() && members[i] == ("running"@, MemberView::Flag(true));
        assert(members[i].1 is Flag);
    }
    if members.contains(("running"@, MemberView::Flag(false))) {
        let i = choose|i: int|
            0 <= i < members.len() && members[i] == ("running"@, MemberView::Flag(false));
        assert(members[i].1 is Flag);
    }
}

proof fn lemma_leading_members(status: StatusView, count: nat)
    requires
        count >= 2,
    ensures
        first_members(status, count).len() >= 2,
        first_members(status, count)[0] == (
            "schema_version"@,
            FieldView::Number(status.schema_version as u64),
        ),
        first_members(status, count)[1] == ("running"@, FieldView::Flag(status.running)),
    decreases count,
{
    if count > 2 {
        lemma_leading_members(status, (count - 1) as nat);
    } else {
        reveal_with_fuel(first_members, 3);
    }
}

proof fn lemma_names_distinct(status: StatusView, count: nat)
    requires
        count <= 10,
    ensures
        forall|i: int|
            0 <= i < first_members(status, count).len() ==> exists|k: int|
                0 <= k < count && (#[trigger] first_members(status, count)[i]).0
                    == #[trigger] member_name(k),
        distinct_names(first_members(status, count)),
    decreases count,
{
    lemma_member_names();
    if count > 0 {
        lemma_names_distinct(status, (count - 1) as nat);
        let before = first_members(status, (count - 1) as nat);
        let all = first_members(status, count);
        assert forall|i: int| 0 <= i < all.len() implies exists|k: int|
            0 <= k < count && (#[trigger] all[i]).0 == #[trigger] member_name(k) by {
            if i < before.len() {
                assert(all[i] == before[i]);
                let k = choose|k: int|
                    0 <= k < count - 1 && before[i].0 == #[trigger] member_name(k);
                assert(all[i].0 == member_name(k));
            } else {
                assert(all[i].0 == member_name(count - 1));
            }
        }
        assert forall|i: int, j: int| 0 <= i < j < all.len() implies #[trigger] all[i].0
            != #[trigger] all[j].0 by {
            assert(all[i] == before[i]);
            if j == before.len() {
                let k = choose|k: int|
                    0 <= k < count - 1 && before[i].0 == #[trigger] member_name(k);
                assert(member_name(k) != member_name(count - 1));
            } else {
                assert(all[j] == before[j]);
            }
        }
    }
}

/// A text that may be missing is seen as it is.
pub open spec fn is_seen_as(text: Option<String>, seen: Option<Seq<char>>) -> bool {
    &&& seen is Some <==> text is Some
    &&& text matches Some(text) ==> seen == Some(text@)
}

/// A status is seen whole.
pub proof fn statuses_are_seen_whole(status: Status)
    ensures
        status@.schema_version == status.schema_version,
        status@.running == status.running,
        status@.authorization is Some <==> status.authorization is Some,
        status.authorization matches Some(text) ==> status@.authorization == Some(text@),
        is_seen_as(status.account_selector, status@.account_selector),
        is_seen_as(status.op_path, status@.op_path),
        status@.broker_version is Some <==> status.broker_version is Some,
        status.broker_version matches Some(text) ==> status@.broker_version == Some(text@),
        is_seen_as(status.started_at, status@.started_at),
        is_seen_as(status.authorized_at, status@.authorized_at),
        is_seen_as(status.hard_expires_at, status@.hard_expires_at),
        is_seen_as(status.next_probe_at, status@.next_probe_at),
{
}

} // verus!
