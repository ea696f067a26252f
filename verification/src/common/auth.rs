//! Accounts and password checks.

use vstd::hash_map::StringHashMap;
use vstd::prelude::*;

verus! {

/// `bcrypt::BcryptError`, carried as it is.
#[verifier::external_type_specification]
#[verifier::external_body]
pub struct ExBcryptError(bcrypt::BcryptError);

/// What `bcrypt::verify` says of a password and a hash: whether they fit, or why the hash cannot be
/// read.
pub uninterp spec fn verdict(password: Seq<char>, hashed: Seq<char>) -> Result<
    bool,
    bcrypt::BcryptError,
>;

/// Calls `bcrypt::verify`. It reads version, cost and salt from the hash, hashes the password
/// with them and compares, so its answer depends on its two arguments alone, the error included.
/// `verdict` is that answer.
#[verifier::external_body]
fn bcrypt_verify(password: &str, hashed: &str) -> (r: Result<bool, bcrypt::BcryptError>)
    ensures
        r == verdict(password@, hashed@),
{
    bcrypt::verify(password, hashed)
}

/// Calls `bcrypt::hash` at the default cost. The salt is random, and where the system has no
/// randomness to give the call fails. Whatever the salt, the hash can be read by
/// `bcrypt::verify`, and fits the password that it was made from.
#[verifier::external_body]
fn bcrypt_hash(password: &str) -> (r: Result<String, bcrypt::BcryptError>)
    ensures
        r matches Ok(hashed) ==> {
            &&& verdict(password@, hashed@) == Ok::<bool, bcrypt::BcryptError>(true)
            &&& forall|other: Seq<char>| verdict(other, hashed@) is Ok
        },
{
    bcrypt::hash(password, bcrypt::DEFAULT_COST)
}

/// Why an account could not be set up or checked.
#[derive(Debug)]
pub enum AuthError {
    /// A password could not be hashed, or a hash could not be read.
    HashingError(bcrypt::BcryptError),
    /// The check was lost before it gave an answer.
    AuthenticationFailed,
}

/// An [`AuthError`] in views.
pub enum AuthErrorView {
    HashingError(bcrypt::BcryptError),
    AuthenticationFailed,
}

impl View for AuthError {
    type V = AuthErrorView;

    open spec fn view(&self) -> AuthErrorView {
        match self {
            AuthError::HashingError(error) => AuthErrorView::HashingError(*error),
            AuthError::AuthenticationFailed => AuthErrorView::AuthenticationFailed,
        }
    }
}

/// A password and the hash that it has to fit.
pub struct PasswordCheck {
    password: String,
    hashed: String,
}

impl PasswordCheck {
    /// The password to check.
    pub closed spec fn given(&self) -> Seq<char> {
        self.password@
    }

    /// The hash to check it against.
    pub closed spec fn expected(&self) -> Seq<char> {
        self.hashed@
    }

    /// The same check again.
    pub fn copy(&self) -> (r: Self)
        ensures
            r.given() == self.given(),
            r.expected() == self.expected(),
    {
        PasswordCheck { password: self.password.clone(), hashed: self.hashed.clone() }
    }

    /// Makes the check. This takes long on purpose: run it where blocking does no harm.
    pub fn run(&self) -> (r: Result<bool, bcrypt::BcryptError>)
        ensures
            r == verdict(self.given(), self.expected()),
    {
        bcrypt_verify(self.password.as_str(), self.hashed.as_str())
    }
}

/// The first half of an authentication.
pub enum AuthStep {
    /// No password has to be looked at: this is the answer.
    Decided(bool),
    /// The answer rests on this check.
    Check(PasswordCheck),
}

/// An [`AuthStep`] in views: an answer, or a password and the hash that it has to fit.
pub enum AuthStepView {
    Decided(bool),
    Check(Seq<char>, Seq<char>),
}

impl View for AuthStep {
    type V = AuthStepView;

    open spec fn view(&self) -> AuthStepView {
        match self {
            AuthStep::Decided(answer) => AuthStepView::Decided(*answer),
            AuthStep::Check(check) => AuthStepView::Check(check.given(), check.expected()),
        }
    }
}

/// How a login with `user` and `password` begins where `accounts` holds the hash of each user.
pub open spec fn first_step(
    accounts: Map<Seq<char>, Seq<char>>,
    user: Seq<char>,
    password: Seq<char>,
) -> AuthStepView {
    if accounts.is_empty() {
        AuthStepView::Decided(true)
    } else if accounts.contains_key(user) {
        AuthStepView::Check(password, accounts[user])
    } else {
        AuthStepView::Decided(false)
    }
}

/// The answer to a login, or why the user's hash cannot be read.
pub open spec fn login(
    accounts: Map<Seq<char>, Seq<char>>,
    user: Seq<char>,
    password: Seq<char>,
) -> Result<bool, bcrypt::BcryptError> {
    match first_step(accounts, user, password) {
        AuthStepView::Decided(answer) => Ok(answer),
        AuthStepView::Check(given, expected) => verdict(given, expected),
    }
}

/// The password of each user in a list of users, the last entry of a name counting.
pub open spec fn passwords(users: Seq<(String, String)>) -> Map<Seq<char>, Seq<char>>
    decreases users.len(),
{
    if users.len() == 0 {
        Map::empty()
    } else {
        passwords(users.drop_last()).insert(users.last().0@, users.last().1@)
    }
}

/// `accounts` holds for each user a hash that can be read and fits that user's password.
pub open spec fn guards(
    accounts: Map<Seq<char>, Seq<char>>,
    passwords: Map<Seq<char>, Seq<char>>,
) -> bool {
    &&& accounts.dom() == passwords.dom()
    &&& forall|user: Seq<char>| #[trigger]
        accounts.contains_key(user) ==> {
            &&& verdict(passwords[user], accounts[user]) == Ok::<bool, bcrypt::BcryptError>(true)
            &&& forall|other: Seq<char>| verdict(other, accounts[user]) is Ok
        }
}

/// Who may log in. The view gives the password hash of each user.
pub struct AuthManager {
    users: StringHashMap<String>,
}

impl View for AuthManager {
    type V = Map<Seq<char>, Seq<char>>;

    closed spec fn view(&self) -> Map<Seq<char>, Seq<char>> {
        self.users@.map_values(|hashed: String| hashed@)
    }
}

impl Default for AuthManager {
    /// Nobody has an account.
    fn default() -> (manager: Self)
        ensures
            manager@ == Map::<Seq<char>, Seq<char>>::empty(),
    {
        let manager = AuthManager { users: StringHashMap::new() };
        assert(manager@ =~= Map::empty());
        manager
    }
}

impl AuthManager {
    /// Hashes the password of each user. Fails where a password cannot be hashed.
    pub fn new(users: &Vec<(String, String)>) -> (r: Result<Self, AuthError>)
        ensures
            match r {
                Ok(manager) => guards(manager@, passwords(users@)),
                Err(error) => error@ is HashingError && users@.len() > 0,
            },
    {
        let mut manager = AuthManager { users: StringHashMap::new() };
        let n: usize = users.len();
        let mut i: usize = 0;
        assert(users@.take(0) =~= Seq::empty());
        assert(manager@ =~= Map::empty());
        while i < n
            invariant
                n == users.len(),
                i <= n,
                guards(manager@, passwords(users@.take(i as int))),
            decreases n - i,
        {
            let user = &users[i].0;
            let password = &users[i].1;
            let ghost before = manager@;
            let hashed = bcrypt_hash(password.as_str());
            if let Err(error) = manager.store(user.as_str(), hashed) {
                return Err(error);
            }
            proof {
                assert(users@.take(i + 1).drop_last() =~= users@.take(i as int));
                let now = passwords(users@.take(i + 1));
                assert(now == passwords(users@.take(i as int)).insert(user@, password@));
                assert(manager@.dom() =~= now.dom());
                assert forall|name: Seq<char>| #[trigger] manager@.contains_key(name) implies {
                    &&& verdict(now[name], manager@[name]) == Ok::<bool, bcrypt::BcryptError>(true)
                    &&& forall|other: Seq<char>| verdict(other, manager@[name]) is Ok
                } by {
                    if name != user@ {
                        assert(before.contains_key(name));
                    }
                }
            }
            i += 1;
        }
        assert(users@.take(n as int) =~= users@);
        Ok(manager)
    }

    /// Gives `username` an account with the hash that hashing the password came to.
    pub fn store(&mut self, username: &str, hashed: Result<String, bcrypt::BcryptError>) -> (r:
        Result<(), AuthError>)
        ensures
            match hashed {
                Ok(hash) => r is Ok && final(self)@ == old(self)@.insert(username@, hash@),
                Err(error) => r == Err::<(), AuthError>(AuthError::HashingError(error))
                    && final(self)@ == old(self)@,
            },
    {
        match hashed {
            Ok(hash) => {
                self.users.insert(username.to_owned(), hash);
                assert(self@ =~= old(self)@.insert(username@, hash@));
                Ok(())
            },
            Err(error) => Err(AuthError::HashingError(error)),
        }
    }

    /// Whether anybody has an account.
    pub fn has_users(&self) -> (r: bool)
        ensures
            r == !self@.is_empty(),
    {
        proof {
            self.lemma_view();
        }
        !self.users.is_empty()
    }

    proof fn lemma_view(&self)
        ensures
            self@.dom() == self.users@.dom(),
            self@.is_empty() == self.users@.is_empty(),
    {
        assert(self@.dom() =~= self.users@.dom());
    }

    /// Begins a login: gives the answer where no password has to be looked at.
    pub fn begin(&self, username: &str, password: &str) -> (step: AuthStep)
        ensures
            step@ == first_step(self@, username@, password@),
    {
        proof {
            self.lemma_view();
        }
        if self.users.is_empty() {
            return AuthStep::Decided(true);
        }
        match self.users.get(username) {
            Some(hashed) => AuthStep::Check(
                PasswordCheck { password: password.to_owned(), hashed: hashed.clone() },
            ),
            None => AuthStep::Decided(false),
        }
    }

    /// Ends a login with what came of its check; `None` where the check was lost.
    pub fn conclude(outcome: Option<Result<bool, bcrypt::BcryptError>>) -> (r: Result<
        bool,
        AuthError,
    >)
        ensures
            r == match outcome {
                Some(Ok(fits)) => Ok(fits),
                Some(Err(error)) => Err(AuthError::HashingError(error)),
                None => Err(AuthError::AuthenticationFailed),
            },
    {
        match outcome {
            Some(Ok(fits)) => Ok(fits),
            Some(Err(error)) => Err(AuthError::HashingError(error)),
            None => Err(AuthError::AuthenticationFailed),
        }
    }

    /// Whether `username` may log in with `password`. Everybody may where nobody has an account.
    pub fn authenticate(&self, username: &str, password: &str) -> (r: Result<bool, AuthError>)
        ensures
            r == match login(self@, username@, password@) {
                Ok(answer) => Ok(answer),
                Err(error) => Err(AuthError::HashingError(error)),
            },
    {
        match self.begin(username, password) {
            AuthStep::Decided(answer) => Ok(answer),
            AuthStep::Check(check) => AuthManager::conclude(Some(check.run())),
        }
    }
}

/// Where nobody has an account every login succeeds.
pub proof fn law_open_without_accounts(user: Seq<char>, password: Seq<char>)
    ensures
        login(Map::empty(), user, password) == Ok::<bool, bcrypt::BcryptError>(true),
{
}

/// A user logs in with the password that the account was set up with.
pub proof fn law_own_password_is_accepted(
    users: Seq<(String, String)>,
    accounts: Map<Seq<char>, Seq<char>>,
    user: Seq<char>,
)
    requires
        guards(accounts, passwords(users)),
        passwords(users).contains_key(user),
    ensures
        login(accounts, user, passwords(users)[user]) == Ok::<bool, bcrypt::BcryptError>(true),
{
    assert(accounts.contains_key(user));
}

/// Where somebody has an account, a name without one is turned away whatever the password.
pub proof fn law_unknown_user_is_refused(
    users: Seq<(String, String)>,
    accounts: Map<Seq<char>, Seq<char>>,
    user: Seq<char>,
    password: Seq<char>,
)
    requires
        guards(accounts, passwords(users)),
        users.len() > 0,
        !passwords(users).contains_key(user),
    ensures
        login(accounts, user, password) == Ok::<bool, bcrypt::BcryptError>(false),
{
    let last = users.last().0@;
    assert(passwords(users).contains_key(last));
    assert(accounts.contains_key(last));
    assert(!accounts.contains_key(user));
}

/// A login at accounts that were set up from passwords always has an answer.
pub proof fn law_login_is_answered(
    users: Seq<(String, String)>,
    accounts: Map<Seq<char>, Seq<char>>,
    user: Seq<char>,
    password: Seq<char>,
)
    requires
        guards(accounts, passwords(users)),
    ensures
        login(accounts, user, password) is Ok,
{
}

proof fn lemma_passwords(users: Seq<(String, String)>, i: int)
    ensures
        forall|name: Seq<char>| #[trigger]
            passwords(users).contains_key(name) <==> exists|k: int|
                0 <= k < users.len() && (#[trigger] users[k]).0@ == name,
        0 <= i < users.len() && (forall|k: int|
            i < k < users.len() ==> (#[trigger] users[k]).0@ != users[i].0@) ==> passwords(
            users,
        )[users[i].0@] == users[i].1@,
    decreases users.len(),
{
    if users.len() > 0 {
        let before = users.drop_last();
        let last = users.len() - 1;
        lemma_passwords(before, i);
        assert forall|name: Seq<char>| #[trigger] passwords(users).contains_key(name) <==> exists|
            k: int,
        |
            0 <= k < users.len() && (#[trigger] users[k]).0@ == name by {
            if passwords(users).contains_key(name) {
                if name == users.last().0@ {
                    assert(users[last].0@ == name);
                } else {
                    assert(passwords(before).contains_key(name));
                    let k = choose|k: int|
                        0 <= k < before.len() && (#[trigger] before[k]).0@ == name;
                    assert(users[k].0@ == name);
                }
            }
            if exists|k: int| 0 <= k < users.len() && (#[trigger] users[k]).0@ == name {
                let k = choose|k: int| 0 <= k < users.len() && (#[trigger] users[k]).0@ == name;
                if k < last {
                    assert(before[k].0@ == name);
                    assert(passwords(before).contains_key(name));
                }
            }
        }
        if 0 <= i < last && (forall|k: int|
            i < k < users.len() ==> (#[trigger] users[k]).0@ != users[i].0@) {
            assert(users[last].0@ != users[i].0@);
            assert forall|k: int| i < k < before.len() implies (#[trigger] before[k]).0@
                != before[i].0@ by {
                assert(before[k] == users[k]);
            }
        }
    }
}

/// Who has an account: exactly the names in the list of users, character by character. The last
/// entry of a name counts: with that name and that password a login succeeds.
pub proof fn law_listed_users_have_accounts(
    users: Seq<(String, String)>,
    accounts: Map<Seq<char>, Seq<char>>,
    i: int,
    name: Seq<char>,
)
    requires
        guards(accounts, passwords(users)),
    ensures
        accounts.contains_key(name) <==> exists|k: int|
            0 <= k < users.len() && (#[trigger] users[k]).0@ == name,
        0 <= i < users.len() && (forall|k: int|
            i < k < users.len() ==> (#[trigger] users[k]).0@ != users[i].0@) ==> {
            &&& accounts.contains_key(users[i].0@)
            &&& verdict(users[i].1@, accounts[users[i].0@]) == Ok::<bool, bcrypt::BcryptError>(true)
            &&& login(accounts, users[i].0@, users[i].1@) == Ok::<bool, bcrypt::BcryptError>(true)
        },
{
    lemma_passwords(users, i);
    assert(accounts.contains_key(name) <==> passwords(users).contains_key(name));
    if 0 <= i < users.len() {
        assert(passwords(users).contains_key(users[i].0@));
        assert(accounts.contains_key(users[i].0@));
    }
}

/// A login is answered by the hash of that very name, of which bcrypt says whether that very
/// password fits. Where nobody has an account everybody is let in, and otherwise a name without one
/// is not.
pub proof fn law_login_is_by_name_and_password(
    accounts: Map<Seq<char>, Seq<char>>,
    user: Seq<char>,
    password: Seq<char>,
    hashed: Seq<char>,
)
    ensures
        login(accounts.insert(user, hashed), user, password) == verdict(password, hashed),
        first_step(accounts.insert(user, hashed), user, password) == AuthStepView::Check(
            password,
            hashed,
        ),
        !accounts.is_empty() && !accounts.contains_key(user) ==> login(accounts, user, password)
            == Ok::<bool, bcrypt::BcryptError>(false),
        !accounts.is_empty() && !accounts.contains_key(user) ==> first_step(
            accounts,
            user,
            password,
        ) == AuthStepView::Decided(false),
        login(Map::empty(), user, password) == Ok::<bool, bcrypt::BcryptError>(true),
        first_step(Map::empty(), user, password) == AuthStepView::Decided(true),
{
    let with = accounts.insert(user, hashed);
    assert(with.contains_key(user));
    assert(!with.is_empty());
}

/// A step's view, and an error's, has what the step or the error holds.
pub proof fn law_step_view(answer: bool, check: PasswordCheck, error: bcrypt::BcryptError)
    ensures
        AuthStep::Decided(answer)@ == AuthStepView::Decided(answer),
        AuthStep::Check(check)@ == AuthStepView::Check(check.given(), check.expected()),
        AuthError::HashingError(error)@ == AuthErrorView::HashingError(error),
        AuthError::AuthenticationFailed@ == AuthErrorView::AuthenticationFailed,
{
}

} // verus!
