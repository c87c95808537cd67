//! Small arithmetic helpers, address validation, and a user registry with
//! unique addresses.

use vstd::prelude::*;

use vstd::string::StringExecFns;

verus! {

/// Adds two.
pub fn add_two(a: i32) -> (r: i32)
    requires
        a + 2 <= i32::MAX,
    ensures
        r == a + 2,
{
    a + 2
}

/// Adds two numbers.
pub fn internal_adder(a: i32, b: i32) -> (r: i32)
    requires
        i32::MIN <= a + b <= i32::MAX,
    ensures
        r == a + b,
{
    a + b
}

/// Number of occurrences of `c` in `s`.
pub open spec fn count_char(s: Seq<char>, c: char) -> nat
    decreases s.len(),
{
    if s.len() == 0 {
        0
    } else {
        count_char(s.drop_last(), c) + if s.last() == c {
            1nat
        } else {
            0nat
        }
    }
}

/// Position of the single `@` of a valid address.
pub open spec fn at_pos(s: Seq<char>) -> int {
    choose|p: int| 0 <= p < s.len() && s[p] == '@'
}

/// A well-formed address: exactly one `@`, a non-empty local part, and a
/// domain that holds a dot but neither starts nor ends with one.
pub open spec fn spec_valid_email(s: Seq<char>) -> bool {
    &&& count_char(s, '@') == 1
    &&& at_pos(s) > 0
    &&& exists|q: int| at_pos(s) < q < s.len() && s[q] == '.'
    &&& at_pos(s) + 1 < s.len() && s[at_pos(s) + 1] != '.'
    &&& s[s.len() - 1] != '.'
}

/// In a string with exactly one `@`, that occurrence is the chosen one.
pub proof fn lemma_single_at(s: Seq<char>, i: int)
    requires
        count_char(s, '@') == 1,
        0 <= i < s.len(),
        s[i] == '@',
    ensures
        at_pos(s) == i,
{
    let j = at_pos(s);
    assert(s[j] == '@' && 0 <= j < s.len());
    if i != j {
        let lo = if i < j {
            i
        } else {
            j
        };
        let hi = if i < j {
            j
        } else {
            i
        };
        lemma_two_ats(s, lo, hi);
    }
}

/// Two distinct `@` occurrences force a count of at least two.
proof fn lemma_two_ats(s: Seq<char>, lo: int, hi: int)
    requires
        0 <= lo < hi < s.len(),
        s[lo] == '@',
        s[hi] == '@',
    ensures
        count_char(s, '@') >= 2,
    decreases s.len(),
{
    if hi == s.len() - 1 {
        lemma_one_at(s.drop_last(), lo);
    } else {
        lemma_two_ats(s.drop_last(), lo, hi);
    }
}

/// One `@` occurrence forces a count of at least one.
proof fn lemma_one_at(s: Seq<char>, i: int)
    requires
        0 <= i < s.len(),
        s[i] == '@',
    ensures
        count_char(s, '@') >= 1,
    decreases s.len(),
{
    if i < s.len() - 1 {
        lemma_one_at(s.drop_last(), i);
    }
}

/// Decides `spec_valid_email`.
pub fn validate_email(email: &str) -> (r: bool)
    ensures
        r == spec_valid_email(email@),
{
    let cs = crate::text::chars_vec(email);
    let n = cs.len();
    let mut ats: usize = 0;
    let mut at_idx: usize = 0;
    let mut dot_after_at = false;
    let mut i: usize = 0;
    while i < n
        invariant
            n == cs.len(),
            cs@ == email@,
            0 <= i <= n,
            ats == count_char(email@.take(i as int), '@'),
            ats <= i,
            ats > 0 ==> 0 <= at_idx < i && email@[at_idx as int] == '@',
            dot_after_at <==> (ats > 0 && exists|q: int|
                at_idx < q < i && email@[q] == '.'),
        decreases n - i,
    {
        proof {
            assert(email@.take(i + 1).drop_last() =~= email@.take(i as int));
            assert(email@.take(i + 1).last() == email@[i as int]);
        }
        if cs[i] == '@' {
            if ats == 0 {
                at_idx = i;
            }
            ats = ats + 1;
            proof {
                if dot_after_at {
                    let q = choose|q: int| at_idx < q < i && email@[q] == '.';
                    assert(at_idx < q < i + 1 && email@[q] == '.');
                }
            }
        } else if cs[i] == '.' && ats > 0 {
            dot_after_at = true;
            proof {
                assert(at_idx < i as int && (i as int) < i + 1 && email@[i as int] == '.');
            }
        } else {
            proof {
                if dot_after_at {
                    let q = choose|q: int| at_idx < q < i && email@[q] == '.';
                    assert(at_idx < q < i + 1 && email@[q] == '.');
                }
            }
        }
        i = i + 1;
    }
    proof {
        assert(email@.take(n as int) =~= email@);
    }
    if ats != 1 {
        proof {
            if spec_valid_email(email@) {
            }
        }
        return false;
    }
    proof {
        lemma_single_at(email@, at_idx as int);
    }
    let ok = at_idx > 0 && dot_after_at && at_idx + 1 < n && cs[at_idx + 1] != '.' && cs[n - 1]
        != '.';
    proof {
        if dot_after_at {
            let q = choose|q: int| at_idx < q < n && email@[q] == '.';
            assert(at_pos(email@) < q < email@.len() && email@[q] == '.');
        }
        if exists|q: int| at_pos(email@) < q < email@.len() && email@[q] == '.' {
            let q = choose|q: int| at_pos(email@) < q < email@.len() && email@[q] == '.';
            assert(at_idx < q < n && email@[q] == '.');
        }
    }
    ok
}

/// A registered person: name, address and age.
#[derive(Debug)]
pub struct User {
    pub name: String,
    pub email: String,
    pub age: u8,
}

impl User {
    /// Registers a person: succeeds exactly when the address is
    /// well-formed and the age at least 13, keeping every field as given.
    pub fn new(name: String, email: String, age: u8) -> (r: Result<User, String>)
        ensures
            match r {
                Ok(u) => {
                    &&& spec_valid_email(email@)
                    &&& age >= 13
                    &&& u.name@ == name@
                    &&& u.email@ == email@
                    &&& u.age == age
                },
                Err(e) => (!spec_valid_email(email@) && e@ == "邮箱格式不正确"@) || (
                spec_valid_email(email@) && age < 13 && e@ == "用户年龄必须大于等于13岁"@),
            },
    {
        if !validate_email(email.as_str()) {
            return Err("邮箱格式不正确".to_owned());
        }
        if age < 13 {
            return Err("用户年龄必须大于等于13岁".to_owned());
        }
        Ok(User { name, email, age })
    }

    /// Adults are 18 or older.
    pub fn is_adult(&self) -> (r: bool)
        ensures
            r == (self.age >= 18),
    {
        self.age >= 18
    }

    /// A greeting addressed to the person.
    pub fn greet(&self) -> (r: String)
        ensures
            r@ == "你好，"@ + self.name@ + "！"@,
    {
        "你好，".to_owned().concat(self.name.as_str()).concat("！")
    }
}

/// A greeting addressed to `name`.
pub fn greeting(name: &str) -> (r: String)
    ensures
        r@ == "Hello "@ + name@ + "!"@,
{
    "Hello ".to_owned().concat(name).concat("!")
}

/// Holds registered users, each address at most once.
pub struct UserManager {
    users: Vec<User>,
}

/// Ghost image of a registered person.
#[verifier::ext_equal]
pub struct UserRecord {
    pub name: Seq<char>,
    pub email: Seq<char>,
    pub age: u8,
}

impl View for User {
    type V = UserRecord;

    open spec fn view(&self) -> UserRecord {
        UserRecord { name: self.name@, email: self.email@, age: self.age }
    }
}

impl DeepView for User {
    type V = UserRecord;

    open spec fn deep_view(&self) -> UserRecord {
        self.view()
    }
}

impl View for UserManager {
    type V = Seq<UserRecord>;

    closed spec fn view(&self) -> Seq<UserRecord> {
        Seq::new(self.users@.len(), |i: int| self.users@[i]@)
    }
}

/// Some user of `s` carries the address.
pub open spec fn email_taken(s: Seq<UserRecord>, email: Seq<char>) -> bool {
    exists|i: int| 0 <= i < s.len() && s[i].email == email
}

impl UserManager {
    /// Registry invariant: each address appears once.
    pub open spec fn wf(self) -> bool {
        forall|p: int, q: int| 0 <= p < q < self@.len() ==> self@[p].email != self@[q].email
    }

    /// An empty registry.
    pub fn new() -> (m: UserManager)
        ensures
            m.wf(),
            m@ == Seq::<UserRecord>::empty(),
    {
        let m = UserManager { users: Vec::new() };
        proof {
            assert(m@ =~= Seq::<UserRecord>::empty());
        }
        m
    }

    /// Appends the user: succeeds exactly when the address is not yet
    /// taken; otherwise the registry is untouched.
    pub fn add_user(&mut self, user: User) -> (r: Result<(), String>)
        requires
            old(self).wf(),
        ensures
            final(self).wf(),
            match r {
                Ok(()) => !email_taken(old(self)@, user@.email) && final(self)@ == old(
                    self,
                )@.push(user@),
                Err(e) => email_taken(old(self)@, user@.email) && final(self)@ == old(self)@
                    && e@ == "邮箱已存在"@,
            },
    {
        let ghost pre = self@;
        let n = self.users.len();
        let mut i: usize = 0;
        while i < n
            invariant
                n == self.users@.len(),
                n == self@.len(),
                0 <= i <= n,
                self@ == pre,
                pre == old(self)@,
                self.wf(),
                forall|k: int| 0 <= k < i ==> self@[k].email != user@.email,
            decreases n - i,
        {
            if self.users[i].email == user.email {
                proof {
                    assert(self@[i as int].email == user@.email);
                }
                return Err("邮箱已存在".to_owned());
            }
            i = i + 1;
        }
        let ghost uv = user@;
        self.users.push(user);
        proof {
            assert(self@ =~= pre.push(uv));
            assert forall|p: int, q: int| 0 <= p < q < self@.len() implies self@[p].email
                != self@[q].email by {
                if q < self@.len() - 1 {
                    assert(pre[p].email != pre[q].email);
                }
            }
        }
        Ok(())
    }

    /// Looks a user up by address: returns one exactly when the address is
    /// taken.
    pub fn find_user_by_email(&self, email: &str) -> (r: Option<&User>)
        ensures
            match r {
                Some(u) => email_taken(self@, email@) && u@.email == email@,
                None => !email_taken(self@, email@),
            },
    {
        let key = email.to_owned();
        let n = self.users.len();
        let mut i: usize = 0;
        while i < n
            invariant
                n == self.users@.len(),
                n == self@.len(),
                0 <= i <= n,
                key@ == email@,
                forall|k: int| 0 <= k < i ==> self@[k].email != email@,
            decreases n - i,
        {
            if self.users[i].email == key {
                proof {
                    assert(self@[i as int].email == email@);
                }
                return Some(&self.users[i]);
            }
            i = i + 1;
        }
        None
    }

    /// All adult users, in registration order.
    pub fn get_adult_users(&self) -> (r: Vec<&User>)
        ensures
            r.deep_view() == self@.filter(|u: UserRecord| u.age >= 18),
    {
        let ghost pred = |u: UserRecord| u.age >= 18;
        let n = self.users.len();
        let mut r: Vec<&User> = Vec::new();
        let mut i: usize = 0;
        while i < n
            invariant
                n == self.users@.len(),
                n == self@.len(),
                0 <= i <= n,
                r.deep_view() =~= self@.take(i as int).filter(pred),
                pred == (|u: UserRecord| u.age >= 18),
            decreases n - i,
        {
            let u = &self.users[i];
            proof {
                assert(self@.take(i + 1).drop_last() =~= self@.take(i as int));
                assert(self@.take(i + 1) =~= self@.take(i as int).push(self@[i as int]));
                self@.take(i as int).lemma_filter_push(self@[i as int], pred);
                assert(u@ == self@[i as int]);
            }
            if u.age >= 18 {
                let ghost before = r.deep_view();
                r.push(u);
                proof {
                    assert(r.deep_view() =~= before.push(u@));
                }
            }
            i = i + 1;
        }
        proof {
            assert(self@.take(n as int) =~= self@);
        }
        r
    }

    /// Number of registered users.
    pub fn user_count(&self) -> (n: usize)
        ensures
            n == self@.len(),
    {
        self.users.len()
    }
}

} // verus!
