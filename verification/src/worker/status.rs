//! What is told of the accounts and of how they are.

use crate::error::WorkerError;
use crate::json;
use crate::json::JsonField;
use crate::order;
use crate::order::Ranked;
use crate::text;
use crate::worker::accounts;
use vstd::prelude::*;

verus! {

/// How an account is, as the pool of accounts tells it.
#[derive(Debug)]
pub struct AccountStatus {
    pub email: String,
    pub mobile: String,
    pub state: String,
    pub active_count: usize,
    pub max_concurrent: usize,
    pub last_released_ms: i64,
    pub error_count: u8,
}

/// What an [`AccountStatus`] holds.
pub struct StatusView {
    pub email: Seq<char>,
    pub mobile: Seq<char>,
    pub state: Seq<char>,
    pub active_count: usize,
    pub max_concurrent: usize,
    pub last_released_ms: i64,
    pub error_count: u8,
}

impl View for AccountStatus {
    type V = StatusView;

    open spec fn view(&self) -> StatusView {
        StatusView {
            email: self.email@,
            mobile: self.mobile@,
            state: self.state@,
            active_count: self.active_count,
            max_concurrent: self.max_concurrent,
            last_released_ms: self.last_released_ms,
            error_count: self.error_count,
        }
    }
}

/// What is shown of an account, with its place in the list.
#[derive(Debug)]
pub struct AccountInfo {
    pub index: usize,
    pub label: String,
    pub email: String,
    pub mobile: String,
    pub state: String,
    pub busy_for_seconds: Option<u64>,
    pub active_count: usize,
    pub max_concurrent: usize,
    pub last_released_ms: i64,
    pub error_count: u8,
}

/// What an [`AccountInfo`] holds.
pub struct InfoView {
    pub index: nat,
    pub label: Seq<char>,
    pub email: Seq<char>,
    pub mobile: Seq<char>,
    pub state: Seq<char>,
    pub busy_for_seconds: Option<u64>,
    pub active_count: usize,
    pub max_concurrent: usize,
    pub last_released_ms: i64,
    pub error_count: u8,
}

impl View for AccountInfo {
    type V = InfoView;

    open spec fn view(&self) -> InfoView {
        InfoView {
            index: self.index as nat,
            label: self.label@,
            email: self.email@,
            mobile: self.mobile@,
            state: self.state@,
            busy_for_seconds: self.busy_for_seconds,
            active_count: self.active_count,
            max_concurrent: self.max_concurrent,
            last_released_ms: self.last_released_ms,
            error_count: self.error_count,
        }
    }
}

impl Ranked for AccountInfo {
    open spec fn rank(v: InfoView) -> Seq<int> {
        order::text_rank(v.label)
    }

    fn comes_before(&self, other: &Self) -> (r: bool) {
        order::text_before(self.label.as_str(), other.label.as_str())
    }
}

// ------------------------------------------------------------------ the list

/// What is shown of an account that has no place yet.
pub open spec fn described(status: StatusView) -> InfoView {
    InfoView {
        index: 0,
        label: accounts::label_of(status.email, status.mobile),
        email: status.email,
        mobile: status.mobile,
        state: status.state,
        busy_for_seconds: None,
        active_count: status.active_count,
        max_concurrent: status.max_concurrent,
        last_released_ms: status.last_released_ms,
        error_count: status.error_count,
    }
}

/// What is shown of each account, without places.
pub open spec fn descriptions(statuses: Seq<StatusView>) -> Seq<InfoView> {
    statuses.map_values(|s: StatusView| described(s))
}

/// What is shown, with the places taken away.
pub open spec fn placeless(infos: Seq<InfoView>) -> Seq<InfoView> {
    infos.map_values(|v: InfoView| InfoView { index: 0, ..v })
}

/// `infos` shows every account in the order of the labels, those of one label in the order that
/// they had, each with its place.
pub open spec fn lists(infos: Seq<InfoView>, statuses: Seq<StatusView>) -> bool {
    &&& order::is_stable_sort(
        order::ranks::<AccountInfo>(),
        descriptions(statuses),
        placeless(infos),
    )
    &&& forall|i: int| 0 <= i < infos.len() ==> (#[trigger] infos[i]).index == i
}

/// What is shown of an account that has no place yet.
fn describe(status: AccountStatus) -> (r: AccountInfo)
    ensures
        r@ == described(status@),
{
    let label = accounts::label(status.email.as_str(), status.mobile.as_str());
    AccountInfo {
        index: 0,
        label,
        email: status.email,
        mobile: status.mobile,
        state: status.state,
        busy_for_seconds: None,
        active_count: status.active_count,
        max_concurrent: status.max_concurrent,
        last_released_ms: status.last_released_ms,
        error_count: status.error_count,
    }
}

/// The accounts in the order of their labels, each with its place.
pub fn sorted_accounts(statuses: Vec<AccountStatus>) -> (r: Vec<AccountInfo>)
    ensures
        lists(order::views(r@), order::views(statuses@)),
{
    let ghost all = descriptions(order::views(statuses@));
    let mut infos: Vec<AccountInfo> = Vec::new();
    assert(order::views(infos@) =~= all.take(0));
    for status in it: statuses.into_iter()
        invariant
            all == descriptions(order::views(it.seq())),
            order::views(infos@) == all.take(it.index()),
    {
        let info = describe(status);
        proof {
            let i = it.index();
            assert(all[i] == info@);
            assert(order::views(infos@.push(info)) =~= order::views(infos@).push(info@));
            assert(all.take(i + 1) =~= all.take(i).push(info@));
        }
        infos.push(info);
    }
    assert(all.take(all.len() as int) =~= all);
    let sorted = order::stable_sort(infos);
    let ghost ranked = order::views(sorted@);
    let mut out: Vec<AccountInfo> = Vec::new();
    assert(placeless(order::views(out@)) =~= placeless(ranked.take(0)));
    for info in it: sorted.into_iter()
        invariant
            ranked == order::views(it.seq()),
            out@.len() == it.index(),
            placeless(order::views(out@)) == placeless(ranked.take(it.index())),
            forall|i: int| 0 <= i < out@.len() ==> (#[trigger] out@[i]).index == i,
    {
        let place: usize = out.len();
        let placed = AccountInfo { index: place, ..info };
        proof {
            let i = it.index();
            assert(ranked.take(i + 1) =~= ranked.take(i).push(info@));
            assert(placeless(order::views(out@.push(placed))) =~= placeless(order::views(out@)).push(
                InfoView { index: 0, ..info@ },
            ));
            assert(placeless(ranked.take(i).push(info@)) =~= placeless(ranked.take(i)).push(
                InfoView { index: 0, ..info@ },
            ));
        }
        out.push(placed);
    }
    proof {
        assert(ranked.take(ranked.len() as int) =~= ranked);
        lemma_sorted_have_no_places(order::views(statuses@), ranked);
        assert(placeless(ranked) =~= ranked);
        assert forall|i: int| 0 <= i < order::views(out@).len() implies (#[trigger] order::views(
            out@,
        )[i]).index == i by {
            assert(out@[i].index == i);
        }
    }
    out
}

/// What is in a stable sort was in the list.
proof fn lemma_sorted_from(items: Seq<InfoView>, sorted: Seq<InfoView>, i: int)
    requires
        order::is_stable_sort(order::ranks::<AccountInfo>(), items, sorted),
        0 <= i < sorted.len(),
    ensures
        items.contains(sorted[i]),
        sorted.len() == items.len(),
{
    items.to_multiset_ensures();
    sorted.to_multiset_ensures();
    assert(sorted.contains(sorted[i]));
    assert(items.to_multiset().count(sorted[i]) > 0);
}

/// Sorting gives no places.
proof fn lemma_sorted_have_no_places(statuses: Seq<StatusView>, sorted: Seq<InfoView>)
    requires
        order::is_stable_sort(
            order::ranks::<AccountInfo>(),
            descriptions(statuses),
            sorted,
        ),
    ensures
        forall|i: int| 0 <= i < sorted.len() ==> (#[trigger] sorted[i]).index == 0,
{
    let items = descriptions(statuses);
    assert forall|i: int| 0 <= i < sorted.len() implies (#[trigger] sorted[i]).index == 0 by {
        lemma_sorted_from(items, sorted, i);
        let j = choose|j: int| 0 <= j < items.len() && items[j] == sorted[i];
        assert(items[j] == described(statuses[j]));
    }
}

// -------------------------------------------------------------------- health

/// Being in the state `state`.
pub open spec fn in_state(state: Seq<char>) -> spec_fn(InfoView) -> bool {
    |v: InfoView| v.state == state
}

/// How many of the accounts are in the state `state`.
pub open spec fn count(infos: Seq<InfoView>, state: Seq<char>) -> nat {
    infos.filter(in_state(state)).len()
}

/// How many of the accounts are in the state `state`.
pub fn count_state(infos: &Vec<AccountInfo>, state: &str) -> (r: usize)
    ensures
        r == count(order::views(infos@), state@),
{
    let ghost all = order::views(infos@);
    let mut n: usize = 0;
    let mut i: usize = 0;
    proof {
        reveal(Seq::filter);
        assert(all.take(0) =~= seq![]);
    }
    while i < infos.len()
        invariant
            n <= i <= infos.len(),
            all == order::views(infos@),
            n == count(all.take(i as int), state@),
        decreases infos@.len() - i,
    {
        proof {
            reveal(Seq::filter);
            assert(all.take(i + 1).drop_last() =~= all.take(i as int));
            assert(all.take(i + 1).last() == infos@[i as int]@);
        }
        if text::same_text(infos[i].state.as_str(), state) {
            n = n + 1;
        }
        i = i + 1;
    }
    assert(all.take(all.len() as int) =~= all);
    n
}

/// What is told of how the accounts are.
pub open spec fn health_fields(infos: Seq<InfoView>) -> Map<Seq<char>, json::FieldView> {
    Map::empty().insert("ok"@, json::FieldView::Flag(true)).insert(
        "accounts"@,
        json::FieldView::Number(infos.len() as int),
    ).insert("idle"@, json::FieldView::Number(count(infos, "idle"@) as int)).insert(
        "busy"@,
        json::FieldView::Number(count(infos, "busy"@) as int),
    ).insert("error"@, json::FieldView::Number(count(infos, "error"@) as int)).insert(
        "invalid"@,
        json::FieldView::Number(count(infos, "invalid"@) as int),
    )
}

/// The JSON that tells how the accounts are.
pub fn health(infos: &Vec<AccountInfo>) -> (r: String)
    ensures
        r@ == json::object_text(health_fields(order::views(infos@))),
{
    let mut object = json::empty_object();
    json::set_field(&mut object, "ok", JsonField::Flag(true));
    json::set_field(&mut object, "accounts", JsonField::Count(infos.len() as u64));
    json::set_field(&mut object, "idle", JsonField::Count(count_state(infos, "idle") as u64));
    json::set_field(&mut object, "busy", JsonField::Count(count_state(infos, "busy") as u64));
    json::set_field(&mut object, "error", JsonField::Count(count_state(infos, "error") as u64));
    json::set_field(&mut object, "invalid", JsonField::Count(count_state(infos, "invalid") as u64));
    json::write_object(object)
}

// ------------------------------------------------------------ administration

/// What is told of an account.
pub open spec fn account_fields(info: InfoView) -> Map<Seq<char>, json::FieldView> {
    Map::empty().insert("index"@, json::FieldView::Number(info.index as int)).insert(
        "label"@,
        json::FieldView::Text(info.label),
    ).insert("email"@, json::FieldView::Text(info.email)).insert(
        "mobile"@,
        json::FieldView::Text(info.mobile),
    ).insert("state"@, json::FieldView::Text(info.state)).insert(
        "busy_for_seconds"@,
        match info.busy_for_seconds {
            Some(n) => json::FieldView::Number(n as int),
            None => json::FieldView::Absent,
        },
    ).insert("active_count"@, json::FieldView::Number(info.active_count as int)).insert(
        "max_concurrent"@,
        json::FieldView::Number(info.max_concurrent as int),
    ).insert("last_released_ms"@, json::FieldView::Number(info.last_released_ms as int)).insert(
        "error_count"@,
        json::FieldView::Number(info.error_count as int),
    )
}

/// What is told of the accounts.
pub open spec fn account_list_fields(infos: Seq<InfoView>) -> Map<Seq<char>, json::FieldView> {
    Map::empty().insert(
        "accounts"@,
        json::FieldView::List(infos.map_values(|v: InfoView| account_fields(v))),
    )
}

/// What is told of an account, as a JSON object.
fn account_object(info: &AccountInfo) -> (r: serde_json::Map<String, serde_json::Value>)
    ensures
        json::object_fields(r) == account_fields(info@),
{
    let mut object = json::empty_object();
    json::set_field(&mut object, "index", JsonField::Count(info.index as u64));
    json::set_field(&mut object, "label", JsonField::Text(info.label.clone()));
    json::set_field(&mut object, "email", JsonField::Text(info.email.clone()));
    json::set_field(&mut object, "mobile", JsonField::Text(info.mobile.clone()));
    json::set_field(&mut object, "state", JsonField::Text(info.state.clone()));
    let busy = match info.busy_for_seconds {
        Some(n) => JsonField::Count(n),
        None => JsonField::Absent,
    };
    json::set_field(&mut object, "busy_for_seconds", busy);
    json::set_field(&mut object, "active_count", JsonField::Count(info.active_count as u64));
    json::set_field(&mut object, "max_concurrent", JsonField::Count(info.max_concurrent as u64));
    json::set_field(&mut object, "last_released_ms", JsonField::Signed(info.last_released_ms));
    json::set_field(&mut object, "error_count", JsonField::Count(info.error_count as u64));
    object
}

/// The JSON that tells of the accounts.
pub fn admin_accounts(infos: &Vec<AccountInfo>) -> (r: String)
    ensures
        r@ == json::object_text(account_list_fields(order::views(infos@))),
{
    let ghost all = order::views(infos@).map_values(|v: InfoView| account_fields(v));
    let mut items: Vec<serde_json::Map<String, serde_json::Value>> = Vec::new();
    let mut i: usize = 0;
    assert(json::fields_of_each(items@) =~= all.take(0));
    while i < infos.len()
        invariant
            i <= infos@.len(),
            all == order::views(infos@).map_values(|v: InfoView| account_fields(v)),
            json::fields_of_each(items@) == all.take(i as int),
        decreases infos@.len() - i,
    {
        let item = account_object(&infos[i]);
        proof {
            assert(all[i as int] == account_fields(infos@[i as int]@));
            json::lemma_fields_push(items@, item);
            assert(all.take(i + 1) =~= all.take(i as int).push(all[i as int]));
        }
        items.push(item);
        i = i + 1;
    }
    assert(all.take(all.len() as int) =~= all);
    let mut object = json::empty_object();
    json::set_field(&mut object, "accounts", JsonField::List(items));
    json::write_object(object)
}

/// What the account at a place of the list goes by.
pub fn account_at(infos: &Vec<AccountInfo>, index: usize) -> (r: Result<String, WorkerError>)
    ensures
        match r {
            Ok(id) => index < infos@.len() && id@ == accounts::label_of(
                infos@[index as int].email@,
                infos@[index as int].mobile@,
            ),
            Err(WorkerError::BadRequest(message)) => index >= infos@.len() && message@
                == "account index not found"@,
            Err(_) => false,
        },
{
    if index < infos.len() {
        let info: &AccountInfo = &infos[index];
        Ok(accounts::label(info.email.as_str(), info.mobile.as_str()))
    } else {
        Err(WorkerError::BadRequest("account index not found".to_string()))
    }
}

/// The error that a failed removal of an account gives.
pub fn removal_failed(message: String) -> (r: WorkerError)
    ensures
        r matches WorkerError::Conflict(m) && m@ == message@,
{
    WorkerError::Conflict(message)
}

// --------------------------------------------------------------------- laws

/// Every account is listed, and the label and the place that are shown of an account are those by
/// which it is found again.
pub proof fn law_listed_account_is_found_at_its_place(
    infos: Seq<InfoView>,
    statuses: Seq<StatusView>,
    i: int,
)
    requires
        lists(infos, statuses),
        0 <= i < infos.len(),
    ensures
        infos.len() == statuses.len(),
        infos[i].index == i,
        infos[i].label == accounts::label_of(infos[i].email, infos[i].mobile),
{
    let items = descriptions(statuses);
    let sorted = placeless(infos);
    lemma_sorted_from(items, sorted, i);
    let j = choose|j: int| 0 <= j < items.len() && items[j] == sorted[i];
    assert(items[j] == described(statuses[j]));
    assert(sorted[i] == (InfoView { index: 0, ..infos[i] }));
}

/// No account is counted in two states.
pub proof fn law_states_are_counted_apart(infos: Seq<InfoView>)
    ensures
        count(infos, "idle"@) + count(infos, "busy"@) + count(infos, "error"@) + count(
            infos,
            "invalid"@,
        ) <= infos.len(),
    decreases infos.len(),
{
    reveal(Seq::filter);
    reveal_strlit("idle");
    reveal_strlit("busy");
    reveal_strlit("error");
    reveal_strlit("invalid");
    if infos.len() > 0 {
        law_states_are_counted_apart(infos.drop_last());
        assert("idle"@[0] != "busy"@[0] && "idle"@[1] != "invalid"@[1]);
        assert("error"@[0] == 'e');
        assert("invalid"@.len() == 7 && "idle"@.len() == 4 && "error"@.len() == 5);
    }
}

/// What is shown of an account is what is told of it, with its label.
pub proof fn law_description_is_whole(status: AccountStatus, info: AccountInfo)
    ensures
        described(status@).email == status.email@,
        described(status@).mobile == status.mobile@,
        described(status@).state == status.state@,
        described(status@).label == accounts::label_of(status.email@, status.mobile@),
        described(status@).busy_for_seconds is None,
        described(status@).active_count == status.active_count,
        described(status@).max_concurrent == status.max_concurrent,
        described(status@).last_released_ms == status.last_released_ms,
        described(status@).error_count == status.error_count,
        info@.index == info.index,
        info@.label == info.label@,
        info@.email == info.email@,
        info@.mobile == info.mobile@,
        info@.state == info.state@,
        info@.busy_for_seconds == info.busy_for_seconds,
        info@.active_count == info.active_count,
        info@.max_concurrent == info.max_concurrent,
        info@.last_released_ms == info.last_released_ms,
        info@.error_count == info.error_count,
{
}

/// The list shows every account and no other, each as it is described but for its place, in the
/// order of the labels' bytes.
pub proof fn law_list_is_complete(
    infos: Seq<InfoView>,
    statuses: Seq<StatusView>,
    i: int,
    j: int,
    n: int,
)
    requires
        lists(infos, statuses),
    ensures
        infos.len() == statuses.len(),
        0 <= i < infos.len() ==> infos[i].index == i && exists|m: int|
            0 <= m < statuses.len() && infos[i] == (InfoView {
                index: i as nat,
                ..described(#[trigger] statuses[m])
            }),
        0 <= n < statuses.len() ==> exists|m: int|
            0 <= m < infos.len() && (InfoView { index: 0, ..#[trigger] infos[m] }) == (InfoView {
                index: 0,
                ..described(statuses[n])
            }),
        0 <= i < j < infos.len() ==> !order::before(
            order::text_rank(infos[j].label),
            order::text_rank(infos[i].label),
        ),
{
    let items = descriptions(statuses);
    let sorted = placeless(infos);
    items.to_multiset_ensures();
    sorted.to_multiset_ensures();
    assert(sorted.len() == items.len());
    if 0 <= i < infos.len() {
        lemma_sorted_from(items, sorted, i);
        let m = choose|m: int| 0 <= m < items.len() && items[m] == sorted[i];
        assert(items[m] == described(statuses[m]));
        assert(sorted[i] == (InfoView { index: 0, ..infos[i] }));
        assert(infos[i] == (InfoView { index: i as nat, ..described(statuses[m]) }));
    }
    if 0 <= n < statuses.len() {
        assert(items[n] == described(statuses[n]));
        assert(items.contains(items[n]));
        assert(sorted.to_multiset().count(items[n]) > 0);
        let m = choose|m: int| 0 <= m < sorted.len() && sorted[m] == items[n];
        assert(sorted[m] == (InfoView { index: 0, ..infos[m] }));
    }
    if 0 <= i < j < infos.len() {
        let rank = order::ranks::<AccountInfo>();
        assert(!order::before(rank(sorted[j]), rank(sorted[i])));
        assert(sorted[i].label == infos[i].label && sorted[j].label == infos[j].label);
    }
}

/// One more account is counted where it is in the state, and not where it is in another.
pub proof fn law_counting(infos: Seq<InfoView>, info: InfoView, state: Seq<char>)
    ensures
        count(seq![], state) == 0,
        info.state == state ==> count(infos.push(info), state) == count(infos, state) + 1,
        info.state != state ==> count(infos.push(info), state) == count(infos, state),
{
    reveal(Seq::filter);
    assert(infos.push(info).drop_last() =~= infos);
}

/// Health tells how many accounts there are and how many are in each of four states, and that all
/// is well.
pub proof fn law_health(infos: Seq<InfoView>)
    requires
        infos.len() <= usize::MAX,
    ensures
        health_fields(infos) == map!["ok"@ => json::FieldView::Flag(true), "accounts"@ =>
            json::FieldView::Number(infos.len() as int), "idle"@ => json::FieldView::Number(
            count(infos, "idle"@) as int), "busy"@ => json::FieldView::Number(
            count(infos, "busy"@) as int), "error"@ => json::FieldView::Number(
            count(infos, "error"@) as int), "invalid"@ => json::FieldView::Number(
            count(infos, "invalid"@) as int)],
{
}

/// What is told of an account has all that is shown of it, each field whole, and the list one object
/// for each account.
pub proof fn law_accounts_are_told_whole(infos: Seq<InfoView>, info: InfoView)
    ensures
        account_fields(info) == map!["index"@ => json::FieldView::Number(info.index as int),
            "label"@ => json::FieldView::Text(info.label), "email"@ => json::FieldView::Text(
            info.email), "mobile"@ => json::FieldView::Text(info.mobile), "state"@ =>
            json::FieldView::Text(info.state), "busy_for_seconds"@ => (
            match info.busy_for_seconds {
                Some(n) => json::FieldView::Number(n as int),
                None => json::FieldView::Absent,
            }), "active_count"@ => json::FieldView::Number(info.active_count as int),
            "max_concurrent"@ => json::FieldView::Number(info.max_concurrent as int),
            "last_released_ms"@ => json::FieldView::Number(info.last_released_ms as int),
            "error_count"@ => json::FieldView::Number(info.error_count as int)],
        account_list_fields(infos).dom() == set!["accounts"@],
        account_list_fields(infos)["accounts"@] matches json::FieldView::List(list) && list.len()
            == infos.len() && forall|i: int|
            0 <= i < infos.len() ==> #[trigger] list[i] == account_fields(infos[i]),
{
    assert(account_list_fields(infos).dom() =~= set!["accounts"@]);
}

/// Accounts of one label stand in the list in the order in which they are told.
pub proof fn law_accounts_of_one_label_keep_their_order(
    infos: Seq<InfoView>,
    statuses: Seq<StatusView>,
    label: Seq<char>,
)
    requires
        lists(infos, statuses),
    ensures
        placeless(infos).filter(|v: InfoView| v.label == label) == statuses.map_values(
            |s: StatusView| described(s),
        ).filter(|v: InfoView| v.label == label),
        placeless(infos).len() == infos.len(),
        forall|i: int|
            0 <= i < infos.len() ==> #[trigger] placeless(infos)[i] == (InfoView {
                index: 0,
                ..infos[i]
            }),
{
    let rank = order::ranks::<AccountInfo>();
    let k = order::text_rank(label);
    let items = descriptions(statuses);
    let same = |v: InfoView| v.label == label;
    assert forall|v: InfoView| #[trigger] order::has_rank(rank, k)(v) == same(v) by {
        if order::text_rank(v.label) == k {
            order::lemma_text_rank_injective(v.label, label);
        }
    }
    assert(order::has_rank(rank, k) =~= same);
    assert(order::with_rank(rank, placeless(infos), k) == order::with_rank(rank, items, k));
}

} // verus!
