//! Lists of accounts, one to a line.

use crate::error;
use crate::error::WorkerError;
use crate::text;
use vstd::prelude::*;

verus! {

/// How an account logs in: by email, or by mobile number with or without an area code.
pub struct AccountConfig {
    pub email: String,
    pub mobile: String,
    pub area_code: String,
    pub password: String,
}

/// What an [`AccountConfig`] holds.
pub struct AccountView {
    pub email: Seq<char>,
    pub mobile: Seq<char>,
    pub area_code: Seq<char>,
    pub password: Seq<char>,
}

impl View for AccountConfig {
    type V = AccountView;

    open spec fn view(&self) -> AccountView {
        AccountView {
            email: self.email@,
            mobile: self.mobile@,
            area_code: self.area_code@,
            password: self.password@,
        }
    }
}

/// What each account holds.
pub open spec fn account_views(v: Seq<AccountConfig>) -> Seq<AccountView> {
    Seq::new(v.len(), |i: int| v[i]@)
}

// ------------------------------------------------------------------ one line

/// What separates the fields of a line: the first of these characters that occurs in it.
pub open spec fn separator(line: Seq<char>) -> Option<char> {
    if line.contains('|') {
        Some('|')
    } else if line.contains(':') {
        Some(':')
    } else if line.contains(';') {
        Some(';')
    } else if line.contains('\t') {
        Some('\t')
    } else if line.contains(',') {
        Some(',')
    } else {
        None
    }
}

/// The fields of a line, without the whitespace around them.
pub open spec fn fields(line: Seq<char>, sep: char) -> Seq<Seq<char>> {
    text::split(line, sep).map_values(|p: Seq<char>| text::trim(p))
}

/// The account that the fields of a line spell. The fields behind the login are the password, with
/// the separators that stood between them.
pub open spec fn account_of(parts: Seq<Seq<char>>, sep: char) -> Option<AccountView> {
    if parts.len() >= 3 && text::starts_with(parts[0], "+"@) {
        Some(
            AccountView {
                email: seq![],
                mobile: parts[1],
                area_code: parts[0],
                password: text::join(parts.skip(2), sep),
            },
        )
    } else if parts.len() >= 2 {
        Some(
            AccountView {
                email: if parts[0].contains('@') {
                    parts[0]
                } else {
                    seq![]
                },
                mobile: if parts[0].contains('@') {
                    seq![]
                } else {
                    parts[0]
                },
                area_code: seq![],
                password: text::join(parts.skip(1), sep),
            },
        )
    } else {
        None
    }
}

/// The account that a line spells.
pub open spec fn parsed_line(line: Seq<char>) -> Option<AccountView> {
    match separator(line) {
        Some(sep) => account_of(fields(line, sep), sep),
        None => None,
    }
}

/// What separates the fields of a line.
fn find_separator(line: &str) -> (r: Option<char>)
    ensures
        r == separator(line@),
{
    if text::has_char(line, '|') {
        Some('|')
    } else if text::has_char(line, ':') {
        Some(':')
    } else if text::has_char(line, ';') {
        Some(';')
    } else if text::has_char(line, '\t') {
        Some('\t')
    } else if text::has_char(line, ',') {
        Some(',')
    } else {
        None
    }
}

/// The fields of a line, without the whitespace around them.
fn trimmed_fields(line: &str, sep: char) -> (r: Vec<String>)
    ensures
        text::texts(r@) == fields(line@, sep),
{
    let pieces = text::split_on(line, sep);
    let ghost all = fields(line@, sep);
    let mut out: Vec<String> = Vec::new();
    let mut i: usize = 0;
    assert(text::texts(out@) =~= all.take(0));
    while i < pieces.len()
        invariant
            i <= pieces@.len(),
            all == fields(line@, sep),
            text::texts(pieces@) == text::split(line@, sep),
            text::texts(out@) == all.take(i as int),
        decreases pieces@.len() - i,
    {
        let piece = text::trimmed(pieces[i].as_str());
        proof {
            assert(text::split(line@, sep)[i as int] == pieces@[i as int]@);
            assert(all[i as int] == piece@);
            text::lemma_texts_push(out@, piece);
            assert(all.take(i + 1) =~= all.take(i as int).push(piece@));
        }
        out.push(piece);
        i = i + 1;
    }
    assert(all.take(all.len() as int) =~= all);
    out
}

/// The account that a line spells: a login and a password, or an area code, a mobile number and a
/// password.
pub fn parse_account_line(line: &str) -> (r: Option<AccountConfig>)
    ensures
        match r {
            Some(account) => parsed_line(line@) == Some(account@),
            None => parsed_line(line@) is None,
        },
{
    let sep: char = match find_separator(line) {
        Some(c) => c,
        None => {
            return None;
        },
    };
    let parts = trimmed_fields(line, sep);
    let ghost all = fields(line@, sep);
    assert(all.len() == parts@.len());
    assert(forall|i: int| 0 <= i < parts@.len() ==> all[i] == #[trigger] parts@[i]@);
    if parts.len() >= 3 && text::begins_with(parts[0].as_str(), "+") {
        let account = AccountConfig {
            email: String::new(),
            mobile: parts[1].clone(),
            area_code: parts[0].clone(),
            password: text::joined(&parts, 2, sep),
        };
        assert(account@.email =~= seq![]);
        return Some(account);
    }
    if parts.len() >= 2 {
        let password = text::joined(&parts, 1, sep);
        let login = parts[0].clone();
        let account = if text::has_char(login.as_str(), '@') {
            AccountConfig {
                email: login,
                mobile: String::new(),
                area_code: String::new(),
                password,
            }
        } else {
            AccountConfig {
                email: String::new(),
                mobile: login,
                area_code: String::new(),
                password,
            }
        };
        assert(account@.area_code =~= seq![]);
        assert(all[0].contains('@') ==> account@.mobile =~= seq![]);
        assert(!all[0].contains('@') ==> account@.email =~= seq![]);
        return Some(account);
    }
    None
}

// ---------------------------------------------------------------- whole lists

/// The account that a line of a list spells. Blank lines and comments spell none.
pub open spec fn line_account(line: Seq<char>) -> Option<AccountView> {
    let entry = text::trim(line);
    if entry.len() == 0 || text::starts_with(entry, "#"@) {
        None
    } else {
        parsed_line(entry)
    }
}

/// The accounts that the lines of a list spell.
pub open spec fn accounts_in(lines: Seq<Seq<char>>) -> Seq<AccountView>
    decreases lines.len(),
{
    if lines.len() == 0 {
        seq![]
    } else {
        match line_account(lines.last()) {
            Some(account) => accounts_in(lines.drop_last()).push(account),
            None => accounts_in(lines.drop_last()),
        }
    }
}

/// The accounts that a list spells.
pub open spec fn listed_accounts(raw: Seq<char>) -> Seq<AccountView> {
    accounts_in(text::lines(raw))
}

/// The accounts that a list spells, in order. Blank lines, comments and lines without a separator
/// are passed over.
pub fn parse_account_lines(raw: &str) -> (r: Vec<AccountConfig>)
    ensures
        account_views(r@) == listed_accounts(raw@),
{
    let chars = text::to_chars(raw);
    let lines = text::lines_of(&chars);
    let ghost all = text::texts(lines@);
    let mut out: Vec<AccountConfig> = Vec::new();
    let mut i: usize = 0;
    assert(all.take(0) =~= seq![]);
    assert(account_views(out@) =~= seq![]);
    while i < lines.len()
        invariant
            i <= lines@.len(),
            all == text::texts(lines@),
            account_views(out@) == accounts_in(all.take(i as int)),
        decreases lines@.len() - i,
    {
        let entry = text::trimmed(lines[i].as_str());
        proof {
            assert(all.take(i + 1).drop_last() =~= all.take(i as int));
            assert(all.take(i + 1).last() == lines@[i as int]@);
        }
        if !entry.as_str().is_empty() && !text::begins_with(entry.as_str(), "#") {
            if let Some(account) = parse_account_line(entry.as_str()) {
                assert(account_views(out@.push(account)) =~= account_views(out@).push(account@));
                out.push(account);
            }
        }
        i = i + 1;
    }
    assert(all.take(all.len() as int) =~= all);
    out
}

/// The accounts of a list, where there is one.
pub fn load_accounts(raw: Option<&str>) -> (r: Vec<AccountConfig>)
    ensures
        account_views(r@) == (match raw {
            Some(list) => listed_accounts(list@),
            None => Seq::<AccountView>::empty(),
        }),
{
    match raw {
        Some(list) => parse_account_lines(list),
        None => {
            let none: Vec<AccountConfig> = Vec::new();
            assert(account_views(none@) =~= seq![]);
            none
        },
    }
}

/// What an account goes by: its email, or its mobile number where it has no email.
pub open spec fn label_of(email: Seq<char>, mobile: Seq<char>) -> Seq<char> {
    if email.len() == 0 {
        mobile
    } else {
        email
    }
}

/// What an account goes by.
pub fn label(email: &str, mobile: &str) -> (r: String)
    ensures
        r@ == label_of(email@, mobile@),
{
    if email.is_empty() {
        mobile.to_string()
    } else {
        email.to_string()
    }
}

/// What an account goes by.
pub fn account_label(account: &AccountConfig) -> (r: String)
    ensures
        r@ == label_of(account.email@, account.mobile@),
{
    label(account.email.as_str(), account.mobile.as_str())
}

// ------------------------------------------------------------------- imports

/// The accounts to add that a list spells. A list without any is refused.
pub fn accounts_to_add(raw: &str) -> (r: Result<Vec<AccountConfig>, WorkerError>)
    ensures
        match r {
            Ok(accounts) => accounts@.len() > 0 && account_views(accounts@) == listed_accounts(
                raw@,
            ),
            Err(WorkerError::BadRequest(message)) => listed_accounts(raw@).len() == 0 && message@
                == "no usable accounts in request"@,
            Err(_) => false,
        },
{
    let accounts = parse_account_lines(raw);
    assert(account_views(accounts@).len() == accounts@.len());
    if accounts.is_empty() {
        Err(WorkerError::BadRequest("no usable accounts in request".to_string()))
    } else {
        Ok(accounts)
    }
}

/// An account that was to be added, and why it was not, where it was not.
pub struct AddAttempt {
    pub label: String,
    pub failure: Option<String>,
}

/// What came of adding accounts: how many were added, how many there are, and what went wrong.
pub struct AddAccountsResponse {
    pub added: usize,
    pub total: usize,
    pub errors: Vec<String>,
}

/// What is said of the attempts that failed.
pub open spec fn failures(attempts: Seq<AddAttempt>) -> Seq<Seq<char>>
    decreases attempts.len(),
{
    if attempts.len() == 0 {
        seq![]
    } else {
        let said = failures(attempts.drop_last());
        match attempts.last().failure {
            Some(detail) => said.push(error::caused(attempts.last().label@, detail@)),
            None => said,
        }
    }
}

/// What came of adding accounts, where there are `total` now.
pub fn add_accounts_report(attempts: &Vec<AddAttempt>, total: usize) -> (r: AddAccountsResponse)
    ensures
        text::texts(r.errors@) == failures(attempts@),
        r.added + r.errors@.len() == attempts@.len(),
        r.total == total,
{
    let mut added: usize = 0;
    let mut errors: Vec<String> = Vec::new();
    let mut i: usize = 0;
    assert(attempts@.take(0) =~= seq![]);
    assert(text::texts(errors@) =~= seq![]);
    while i < attempts.len()
        invariant
            i <= attempts.len(),
            added + errors@.len() == i,
            text::texts(errors@) == failures(attempts@.take(i as int)),
        decreases attempts@.len() - i,
    {
        proof {
            assert(attempts@.take(i + 1).drop_last() =~= attempts@.take(i as int));
            assert(attempts@.take(i + 1).last() == attempts@[i as int]);
        }
        match &attempts[i].failure {
            Some(detail) => {
                let said = error::with_cause(attempts[i].label.as_str(), detail.as_str());
                proof {
                    text::lemma_texts_push(errors@, said);
                }
                errors.push(said);
            },
            None => {
                added = added + 1;
            },
        }
        i = i + 1;
    }
    assert(attempts@.take(attempts@.len() as int) =~= attempts@);
    AddAccountsResponse { added, total, errors }
}

// --------------------------------------------------------------------- laws

/// A line spells an account exactly where it holds a separator.
pub proof fn law_line_with_a_separator_is_an_account(line: Seq<char>)
    ensures
        parsed_line(line) is Some <==> separator(line) is Some,
{
    if let Some(sep) = separator(line) {
        text::lemma_position(line, sep);
        let i = text::position(line, sep) as int;
        let first = line.take(i);
        assert(!first.contains(sep));
        text::lemma_split_first(first, line.skip(i + 1), sep);
        assert(first.push(sep) + line.skip(i + 1) =~= line);
        assert(fields(line, sep).len() >= 2);
    }
}

/// Whether no piece of `s` between separators has whitespace around it.
pub open spec fn is_tight(s: Seq<char>, sep: char) -> bool {
    forall|i: int|
        0 <= i < text::split(s, sep).len() ==> text::trim(#[trigger] text::split(s, sep)[i])
            == text::split(s, sep)[i]
}

/// The fields of a line whose first field is `first`.
proof fn lemma_fields_first(first: Seq<char>, rest: Seq<char>, sep: char)
    requires
        !first.contains(sep),
        text::trim(first) == first,
    ensures
        fields(first.push(sep) + rest, sep) == seq![first] + fields(rest, sep),
        fields(rest, sep).len() > 0,
{
    text::lemma_split_first(first, rest, sep);
    assert(fields(first.push(sep) + rest, sep) =~= seq![first] + fields(rest, sep));
}

/// A text without whitespace around its pieces is its fields, joined.
proof fn lemma_tight(s: Seq<char>, sep: char)
    requires
        is_tight(s, sep),
    ensures
        text::join(fields(s, sep), sep) == s,
{
    assert(fields(s, sep) =~= text::split(s, sep));
    text::lemma_join_split(s, sep);
}

/// A login and a password with a separator between them spell the account with that login and that
/// password, whatever separators the password holds. A login with an at sign is an email, another
/// one a mobile number.
pub proof fn law_login_and_password(login: Seq<char>, password: Seq<char>, sep: char)
    requires
        separator(login.push(sep) + password) == Some(sep),
        !login.contains(sep),
        !text::starts_with(login, "+"@),
        text::trim(login) == login,
        is_tight(password, sep),
    ensures
        parsed_line(login.push(sep) + password) == Some(
            AccountView {
                email: if login.contains('@') {
                    login
                } else {
                    seq![]
                },
                mobile: if login.contains('@') {
                    seq![]
                } else {
                    login
                },
                area_code: seq![],
                password,
            },
        ),
{
    let parts = fields(login.push(sep) + password, sep);
    lemma_fields_first(login, password, sep);
    lemma_tight(password, sep);
    assert(parts.skip(1) =~= fields(password, sep));
}

/// An area code, a mobile number and a password with separators between them spell the account with
/// that number and that password.
pub proof fn law_area_code_mobile_and_password(
    area_code: Seq<char>,
    mobile: Seq<char>,
    password: Seq<char>,
    sep: char,
)
    requires
        separator(area_code.push(sep) + (mobile.push(sep) + password)) == Some(sep),
        text::starts_with(area_code, "+"@),
        !area_code.contains(sep),
        !mobile.contains(sep),
        text::trim(area_code) == area_code,
        text::trim(mobile) == mobile,
        is_tight(password, sep),
    ensures
        parsed_line(area_code.push(sep) + (mobile.push(sep) + password)) == Some(
            AccountView { email: seq![], mobile, area_code, password },
        ),
{
    let rest = mobile.push(sep) + password;
    let parts = fields(area_code.push(sep) + rest, sep);
    lemma_fields_first(area_code, rest, sep);
    lemma_fields_first(mobile, password, sep);
    lemma_tight(password, sep);
    assert(parts.skip(2) =~= fields(password, sep));
}

/// The lines of two lists spell what the lines of each spell.
proof fn lemma_accounts_add(a: Seq<Seq<char>>, b: Seq<Seq<char>>)
    ensures
        accounts_in(a + b) == accounts_in(a) + accounts_in(b),
    decreases b.len(),
{
    if b.len() == 0 {
        assert(a + b =~= a);
        assert(accounts_in(a) + accounts_in(b) =~= accounts_in(a));
    } else {
        assert((a + b).drop_last() =~= a + b.drop_last());
        lemma_accounts_add(a, b.drop_last());
        assert(accounts_in(a + b) =~= accounts_in(a) + accounts_in(b));
    }
}

/// One line spells at most one account.
proof fn lemma_accounts_one(line: Seq<char>)
    ensures
        accounts_in(seq![line]) == match line_account(line) {
            Some(account) => seq![account],
            None => seq![],
        },
{
    assert(seq![line].drop_last() =~= seq![]);
    assert(accounts_in(seq![line].drop_last()) =~= seq![]);
    assert(accounts_in(seq![line]) =~= match line_account(line) {
        Some(account) => seq![account],
        None => seq![],
    });
}

/// Two lists, one after the other on lines of their own, spell the accounts of the first and then
/// those of the second.
pub proof fn law_lists_one_after_the_other(a: Seq<char>, b: Seq<char>)
    ensures
        listed_accounts(a.push('\n') + b) == listed_accounts(a) + listed_accounts(b),
    decreases a.len(),
{
    let s = a.push('\n') + b;
    let i = text::position(a, '\n') as int;
    text::lemma_position(a, '\n');
    text::lemma_position(s, '\n');
    assert(s[a.len() as int] == '\n');
    assert forall|k: int| 0 <= k < i implies s[k] != '\n' by {
        assert(s[k] == a[k]);
    }
    if i < a.len() {
        let rest = a.skip(i + 1);
        assert(s[i] == '\n');
        assert(text::position(s, '\n') == i);
        assert(s.take(i) =~= a.take(i));
        assert(s.skip(i + 1) =~= rest.push('\n') + b);
        law_lists_one_after_the_other(rest, b);
        let line = seq![text::strip_return(a.take(i))];
        lemma_accounts_add(line, text::lines(rest));
        lemma_accounts_add(line, text::lines(rest.push('\n') + b));
        assert(accounts_in(line) + (listed_accounts(rest) + listed_accounts(b)) =~= accounts_in(
            line,
        ) + listed_accounts(rest) + listed_accounts(b));
    } else {
        let line = text::strip_return(a);
        assert(text::position(s, '\n') == a.len());
        assert(s.take(a.len() as int) =~= a);
        assert(s.skip(i + 1) =~= b);
        lemma_accounts_add(seq![line], text::lines(b));
        lemma_accounts_one(line);
        lemma_accounts_one(a);
        if line != a {
            assert(line.push('\r') =~= a);
            text::lemma_trim_push(line, '\r');
        }
        if a.len() == 0 {
            assert(listed_accounts(a) =~= seq![]);
            assert(text::trim(line) =~= seq![]);
        }
    }
}

/// A comment in a list changes nothing.
pub proof fn law_comments_are_ignored(comment: Seq<char>)
    requires
        !comment.contains('\n'),
    ensures
        listed_accounts(seq!['#'] + comment).len() == 0,
{
    let line = seq!['#'] + comment;
    reveal_strlit("#");
    text::lemma_position(line, '\n');
    if line.contains('\n') {
        let k = choose|k: int| 0 <= k < line.len() && line[k] == '\n';
        assert(comment[k - 1] == '\n');
    }
    assert(text::lines(line) =~= seq![line]);
    lemma_accounts_one(line);
    text::lemma_trim_end_first(line);
    assert(text::trim(line).take(1) =~= "#"@);
}

/// Of the separators that occur in a line, the first in this order counts: bar, colon, semicolon,
/// tab, comma.
pub proof fn law_separators_have_an_order(line: Seq<char>)
    ensures
        line.contains('|') ==> separator(line) == Some('|'),
        !line.contains('|') && line.contains(':') ==> separator(line) == Some(':'),
        !line.contains('|') && !line.contains(':') && line.contains(';') ==> separator(line)
            == Some(';'),
        !line.contains('|') && !line.contains(':') && !line.contains(';') && line.contains('\t')
            ==> separator(line) == Some('\t'),
        !line.contains('|') && !line.contains(':') && !line.contains(';') && !line.contains('\t')
            && line.contains(',') ==> separator(line) == Some(','),
        !line.contains('|') && !line.contains(':') && !line.contains(';') && !line.contains('\t')
            && !line.contains(',') ==> separator(line) is None,
{
}

/// The fields of a line stand between separators, and each is taken without the whitespace around
/// it.
pub proof fn law_fields(
    before: Seq<char>,
    field: Seq<char>,
    behind: Seq<char>,
    rest: Seq<char>,
    sep: char,
)
    requires
        forall|i: int|
            0 <= i < before.len() ==> text::is_space(#[trigger] before[i]) && before[i] != sep,
        forall|i: int|
            0 <= i < behind.len() ==> text::is_space(#[trigger] behind[i]) && behind[i] != sep,
        field.len() > 0 ==> !text::is_space(field[0]) && !text::is_space(field.last()),
        forall|i: int| 0 <= i < field.len() ==> #[trigger] field[i] != sep,
    ensures
        fields(before + field + behind, sep) == seq![field],
        fields((before + field + behind).push(sep) + rest, sep) == seq![field] + fields(rest, sep),
{
    let piece = before + field + behind;
    assert forall|i: int| 0 <= i < piece.len() implies #[trigger] piece[i] != sep by {
        if i < before.len() {
            assert(piece[i] == before[i]);
        } else if i < before.len() + field.len() {
            assert(piece[i] == field[i - before.len()]);
        } else {
            assert(piece[i] == behind[i - before.len() - field.len()]);
        }
    }
    text::law_trim(before, field, behind);
    text::law_split(piece, rest, sep);
    assert(fields(piece, sep) =~= seq![field]);
    assert(fields(piece.push(sep) + rest, sep) =~= seq![field] + fields(rest, sep));
}

/// Three or more fields of which the first begins with a plus sign are an area code, a mobile number
/// and a password; otherwise two or more are a login and a password; fewer are nothing.
pub proof fn law_fields_spell_an_account(
    first: Seq<char>,
    second: Seq<char>,
    rest: Seq<Seq<char>>,
    sep: char,
)
    ensures
        account_of(seq![], sep) is None,
        account_of(seq![first], sep) is None,
        rest.len() > 0 && first.len() > 0 && first[0] == '+' ==> account_of(
            seq![first, second] + rest,
            sep,
        ) == Some(
            AccountView {
                email: seq![],
                mobile: second,
                area_code: first,
                password: text::join(rest, sep),
            },
        ),
        (rest.len() == 0 || first.len() == 0 || first[0] != '+') ==> account_of(
            seq![first, second] + rest,
            sep,
        ) == Some(
            AccountView {
                email: if first.contains('@') {
                    first
                } else {
                    seq![]
                },
                mobile: if first.contains('@') {
                    seq![]
                } else {
                    first
                },
                area_code: seq![],
                password: text::join(seq![second] + rest, sep),
            },
        ),
{
    reveal_strlit("+");
    let parts = seq![first, second] + rest;
    assert(parts.skip(1) =~= seq![second] + rest);
    assert(parts.skip(2) =~= rest);
    assert(text::starts_with(first, "+"@) <==> first.len() > 0 && first[0] == '+') by {
        if first.len() > 0 {
            assert(first.take(1)[0] == first[0]);
            if first[0] == '+' {
                assert(first.take(1) =~= "+"@);
            }
        }
    }
}

/// Whether `sep` separates fields, and no separator that comes before it occurs in `s`.
pub open spec fn separates(sep: char, s: Seq<char>) -> bool {
    ||| sep == '|'
    ||| sep == ':' && !s.contains('|')
    ||| sep == ';' && !s.contains('|') && !s.contains(':')
    ||| sep == '\t' && !s.contains('|') && !s.contains(':') && !s.contains(';')
    ||| sep == ',' && !s.contains('|') && !s.contains(':') && !s.contains(';') && !s.contains('\t')
}

/// A separator that occurs between two texts is the one that counts where none before it occurs in
/// either.
proof fn lemma_separator_between(a: Seq<char>, b: Seq<char>, sep: char)
    requires
        separates(sep, a),
        separates(sep, b),
    ensures
        separator(a.push(sep) + b) == Some(sep),
{
    let line = a.push(sep) + b;
    assert(line[a.len() as int] == sep);
    assert forall|c: char| line.contains(c) implies a.contains(c) || b.contains(c) || c == sep by {
        let i = choose|i: int| 0 <= i < line.len() && line[i] == c;
        if i < a.len() {
            assert(a[i] == c);
        } else if i > a.len() {
            assert(b[i - a.len() - 1] == c);
        }
    }
}

/// A login without any separator character, a separator and a password spell the account with that
/// login and that password, whatever the password holds: the bar separates always, and each other
/// separator where none that comes before it occurs in the password.
pub proof fn law_line_of_login_and_password(login: Seq<char>, password: Seq<char>, sep: char)
    requires
        !login.contains('|'),
        !login.contains(':'),
        !login.contains(';'),
        !login.contains('\t'),
        !login.contains(','),
        login.len() > 0 ==> !text::is_space(login[0]) && !text::is_space(login.last())
            && login[0] != '+',
        separates(sep, password),
        is_tight(password, sep),
    ensures
        parsed_line(login.push(sep) + password) == Some(
            AccountView {
                email: if login.contains('@') {
                    login
                } else {
                    seq![]
                },
                mobile: if login.contains('@') {
                    seq![]
                } else {
                    login
                },
                area_code: seq![],
                password,
            },
        ),
{
    reveal_strlit("+");
    lemma_separator_between(login, password, sep);
    let none = Seq::<char>::empty();
    text::law_trim(none, login, none);
    assert(none + login + none =~= login);
    if text::starts_with(login, "+"@) {
        assert(login.take(1)[0] == login[0]);
    }
    law_login_and_password(login, password, sep);
}

/// An area code, a mobile number and a password between separators spell the account with that
/// number and that password, whatever the password holds.
pub proof fn law_line_of_area_code_mobile_and_password(
    area_code: Seq<char>,
    mobile: Seq<char>,
    password: Seq<char>,
    sep: char,
)
    requires
        !area_code.contains('|'),
        !area_code.contains(':'),
        !area_code.contains(';'),
        !area_code.contains('\t'),
        !area_code.contains(','),
        !mobile.contains('|'),
        !mobile.contains(':'),
        !mobile.contains(';'),
        !mobile.contains('\t'),
        !mobile.contains(','),
        area_code.len() > 0,
        area_code[0] == '+',
        !text::is_space(area_code.last()),
        mobile.len() > 0 ==> !text::is_space(mobile[0]) && !text::is_space(mobile.last()),
        separates(sep, password),
        is_tight(password, sep),
    ensures
        parsed_line(area_code.push(sep) + (mobile.push(sep) + password)) == Some(
            AccountView { email: seq![], mobile, area_code, password },
        ),
{
    reveal_strlit("+");
    let rest = mobile.push(sep) + password;
    assert forall|c: char| rest.contains(c) implies mobile.contains(c) || password.contains(c) || c
        == sep by {
        let i = choose|i: int| 0 <= i < rest.len() && rest[i] == c;
        if i < mobile.len() {
            assert(mobile[i] == c);
        } else if i > mobile.len() {
            assert(password[i - mobile.len() - 1] == c);
        }
    }
    lemma_separator_between(area_code, rest, sep);
    let none = Seq::<char>::empty();
    text::law_trim(none, area_code, none);
    text::law_trim(none, mobile, none);
    assert(none + area_code + none =~= area_code);
    assert(none + mobile + none =~= mobile);
    assert(area_code.take(1) =~= "+"@);
    law_area_code_mobile_and_password(area_code, mobile, password, sep);
}

/// A list of one line spells what stands in the line, without the whitespace around it; nothing
/// where that is empty or begins with a hash sign.
pub proof fn law_list_of_one_line(before: Seq<char>, entry: Seq<char>, behind: Seq<char>)
    requires
        forall|i: int|
            0 <= i < before.len() ==> text::is_space(#[trigger] before[i]) && before[i] != '\n',
        forall|i: int|
            0 <= i < behind.len() ==> text::is_space(#[trigger] behind[i]) && behind[i] != '\n',
        entry.len() > 0 ==> !text::is_space(entry[0]) && !text::is_space(entry.last()),
        forall|i: int| 0 <= i < entry.len() ==> #[trigger] entry[i] != '\n',
    ensures
        entry.len() == 0 || entry[0] == '#' ==> listed_accounts(before + entry + behind).len() == 0,
        entry.len() > 0 && entry[0] != '#' ==> listed_accounts(before + entry + behind)
            == match parsed_line(entry) {
            Some(account) => seq![account],
            None => seq![],
        },
{
    reveal_strlit("#");
    let line = before + entry + behind;
    assert forall|i: int| 0 <= i < line.len() implies #[trigger] line[i] != '\n' by {
        if i < before.len() {
            assert(line[i] == before[i]);
        } else if i < before.len() + entry.len() {
            assert(line[i] == entry[i - before.len()]);
        } else {
            assert(line[i] == behind[i - before.len() - entry.len()]);
        }
    }
    text::law_trim(before, entry, behind);
    text::law_lines(line, seq![]);
    lemma_accounts_one(line);
    if line.len() == 0 {
        assert(line =~= seq![]);
        assert(listed_accounts(line) =~= seq![]);
    }
    if entry.len() > 0 {
        assert(entry.take(1)[0] == entry[0]);
        if entry[0] == '#' {
            assert(entry.take(1) =~= "#"@);
        }
    }
}

/// An account goes by its email, or by its mobile number where it has no email.
pub proof fn law_label(email: Seq<char>, mobile: Seq<char>)
    ensures
        email.len() > 0 ==> label_of(email, mobile) == email,
        email.len() == 0 ==> label_of(email, mobile) == mobile,
{
}

/// One more attempt adds what is said of it where it failed, and nothing where it did not.
pub proof fn law_failures_are_told(attempts: Seq<AddAttempt>, attempt: AddAttempt)
    ensures
        failures(seq![]) == Seq::<Seq<char>>::empty(),
        attempt.failure is None ==> failures(attempts.push(attempt)) == failures(attempts),
        attempt.failure matches Some(detail) ==> failures(attempts.push(attempt)) == failures(
            attempts,
        ).push(attempt.label@ + seq![':', ' '] + detail@),
{
    reveal_strlit(": ");
    assert(": "@ =~= seq![':', ' ']);
    assert(attempts.push(attempt).drop_last() =~= attempts);
}

/// An account holds what it is made of, and a list one account for each.
pub proof fn law_accounts_hold_what_they_are_made_of(
    account: AccountConfig,
    v: Seq<AccountConfig>,
    i: int,
)
    requires
        0 <= i < v.len(),
    ensures
        account@.email == account.email@,
        account@.mobile == account.mobile@,
        account@.area_code == account.area_code@,
        account@.password == account.password@,
        account_views(v).len() == v.len(),
        account_views(v)[i] == v[i]@,
{
}

/// A line is read by the fields that its separator makes.
pub proof fn law_line_is_read_by_its_fields(line: Seq<char>)
    ensures
        separator(line) is None ==> parsed_line(line) is None,
        separator(line) matches Some(sep) ==> parsed_line(line) == account_of(
            fields(line, sep),
            sep,
        ),
{
}

} // verus!
