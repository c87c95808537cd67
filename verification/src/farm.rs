//! Farm-keeping helpers: a crop ledger, animals, and a tiny user service
//! behind a gateway.

use vstd::prelude::*;

use vstd::string::StringExecFns;

use crate::text::{dec_digits, dec_string};

verus! {

/// Does the ledger hold the crop?
pub open spec fn crops_has(s: Seq<(Seq<char>, usize)>, name: Seq<char>) -> bool {
    exists|i: int| 0 <= i < s.len() && s[i].0 == name
}

/// Position of the crop in the ledger (meaningful when present and names
/// are unique).
pub open spec fn crops_index(s: Seq<(Seq<char>, usize)>, name: Seq<char>) -> int {
    choose|i: int| 0 <= i < s.len() && s[i].0 == name
}

/// Stored quantity of the crop.
pub open spec fn crops_qty(s: Seq<(Seq<char>, usize)>, name: Seq<char>) -> usize {
    s[crops_index(s, name)].1
}

/// With unique names the position of a name is unique.
pub proof fn lemma_crops_index_unique(s: Seq<(Seq<char>, usize)>, name: Seq<char>, i: int)
    requires
        forall|p: int, q: int| 0 <= p < q < s.len() ==> s[p].0 != s[q].0,
        0 <= i < s.len(),
        s[i].0 == name,
    ensures
        crops_index(s, name) == i,
        crops_has(s, name),
{
    assert(crops_has(s, name));
    let j = crops_index(s, name);
    if i < j {
        assert(s[i].0 != s[j].0);
    } else if j < i {
        assert(s[j].0 != s[i].0);
    }
}

/// The status line of a ledger: every crop with a positive quantity, in
/// insertion order, each as `name: quantity, `.
pub open spec fn crops_status(s: Seq<(Seq<char>, usize)>) -> Seq<char>
    decreases s.len(),
{
    if s.len() == 0 {
        Seq::<char>::empty()
    } else {
        crops_status(s.drop_last()) + if s.last().1 > 0 {
            s.last().0 + ": "@ + dec_digits(s.last().1 as nat) + ", "@
        } else {
            Seq::<char>::empty()
        }
    }
}

/// A ledger of planted crops: each crop once, with its quantity on hand.
#[derive(Debug)]
pub struct CropManager {
    crops: Vec<(String, usize)>,
}

impl View for CropManager {
    type V = Seq<(Seq<char>, usize)>;

    closed spec fn view(&self) -> Seq<(Seq<char>, usize)> {
        Seq::new(self.crops@.len(), |i: int| (self.crops@[i].0@, self.crops@[i].1))
    }
}

impl CropManager {
    /// Ledger invariant: each crop name appears once.
    pub open spec fn wf(self) -> bool {
        forall|p: int, q: int| 0 <= p < q < self@.len() ==> self@[p].0 != self@[q].0
    }

    /// An empty ledger.
    pub fn new() -> (m: CropManager)
        ensures
            m.wf(),
            m@ == Seq::<(Seq<char>, usize)>::empty(),
    {
        let m = CropManager { crops: Vec::new() };
        proof {
            assert(m@ =~= Seq::<(Seq<char>, usize)>::empty());
        }
        m
    }

    /// Adds `quantity` of the crop: onto the stored quantity when the crop
    /// is already in the ledger, as a new last entry otherwise.
    pub fn plant(&mut self, crop: &str, quantity: usize)
        requires
            old(self).wf(),
            crops_has(old(self)@, crop@) ==> crops_qty(old(self)@, crop@) + quantity
                <= usize::MAX,
        ensures
            final(self).wf(),
            crops_has(old(self)@, crop@) ==> final(self)@ == old(self)@.update(
                crops_index(old(self)@, crop@),
                (crop@, (crops_qty(old(self)@, crop@) + quantity) as usize),
            ),
            !crops_has(old(self)@, crop@) ==> final(self)@ == old(self)@.push(
                (crop@, quantity),
            ),
    {
        let ghost pre = self@;
        let key = crop.to_owned();
        let n = self.crops.len();
        let mut i: usize = 0;
        while i < n
            invariant
                n == self.crops@.len(),
                n == self@.len(),
                0 <= i <= n,
                key@ == crop@,
                self@ == pre,
                pre == old(self)@,
                self.wf(),
                crops_has(pre, crop@) ==> crops_qty(pre, crop@) + quantity <= usize::MAX,
                forall|k: int| 0 <= k < i ==> self@[k].0 != crop@,
            decreases n - i,
        {
            if self.crops[i].0 == key {
                proof {
                    lemma_crops_index_unique(pre, crop@, i as int);
                }
                let q = self.crops[i].1;
                let pair = self.crops.remove(i);
                self.crops.insert(i, (pair.0, q + quantity));
                proof {
                    assert(self@ =~= pre.update(i as int, (crop@, (q + quantity) as usize)));
                    assert forall|p: int, r: int| 0 <= p < r < self@.len() implies self@[p].0
                        != self@[r].0 by {
                        assert(pre[p].0 != pre[r].0);
                    }
                }
                return ;
            }
            i = i + 1;
        }
        self.crops.push((key, quantity));
        proof {
            assert(self@ =~= pre.push((crop@, quantity)));
            assert forall|p: int, r: int| 0 <= p < r < self@.len() implies self@[p].0
                != self@[r].0 by {
                if r < self@.len() - 1 {
                    assert(pre[p].0 != pre[r].0);
                }
            }
        }
    }

    /// Takes `quantity` of the crop out of the ledger: succeeds, returning
    /// the harvested quantity, exactly when the crop is present with at
    /// least that much on hand; otherwise the ledger is untouched.
    pub fn harvest(&mut self, crop: &str, quantity: usize) -> (r: Option<usize>)
        requires
            old(self).wf(),
        ensures
            final(self).wf(),
            match r {
                Some(got) => {
                    &&& got == quantity
                    &&& crops_has(old(self)@, crop@)
                    &&& crops_qty(old(self)@, crop@) >= quantity
                    &&& final(self)@ == old(self)@.update(
                        crops_index(old(self)@, crop@),
                        (crop@, (crops_qty(old(self)@, crop@) - quantity) as usize),
                    )
                },
                None => {
                    &&& final(self)@ == old(self)@
                    &&& (crops_has(old(self)@, crop@) ==> crops_qty(old(self)@, crop@)
                        < quantity)
                },
            },
    {
        let ghost pre = self@;
        let key = crop.to_owned();
        let n = self.crops.len();
        let mut i: usize = 0;
        while i < n
            invariant
                n == self.crops@.len(),
                n == self@.len(),
                0 <= i <= n,
                key@ == crop@,
                self@ == pre,
                pre == old(self)@,
                self.wf(),
                forall|k: int| 0 <= k < i ==> self@[k].0 != crop@,
            decreases n - i,
        {
            if self.crops[i].0 == key {
                proof {
                    lemma_crops_index_unique(pre, crop@, i as int);
                }
                let q = self.crops[i].1;
                if q >= quantity {
                    let pair = self.crops.remove(i);
                    self.crops.insert(i, (pair.0, q - quantity));
                    proof {
                        assert(self@ =~= pre.update(i as int, (crop@, (q - quantity) as usize)));
                        assert forall|p: int, r: int| 0 <= p < r < self@.len() implies self@[p].0
                            != self@[r].0 by {
                            assert(pre[p].0 != pre[r].0);
                        }
                    }
                    return Some(quantity);
                } else {
                    return None;
                }
            }
            i = i + 1;
        }
        None
    }

    /// The status line: every crop with something on hand, in insertion
    /// order.
    pub fn get_status(&self) -> (r: String)
        ensures
            r@ == crops_status(self@),
    {
        let n = self.crops.len();
        let mut out: Vec<char> = Vec::new();
        let mut i: usize = 0;
        while i < n
            invariant
                n == self.crops@.len(),
                n == self@.len(),
                0 <= i <= n,
                out@ == crops_status(self@.take(i as int)),
            decreases n - i,
        {
            proof {
                assert(self@.take(i + 1).drop_last() =~= self@.take(i as int));
                assert(self@.take(i + 1).last() == self@[i as int]);
            }
            let q = self.crops[i].1;
            if q > 0 {
                crate::text::push_chars(&mut out, self.crops[i].0.as_str());
                crate::text::push_chars(&mut out, ": ");
                crate::text::push_dec(q as u64, &mut out);
                crate::text::push_chars(&mut out, ", ");
                proof {
                    assert(out@ =~= crops_status(self@.take(i + 1)));
                }
            }
            i = i + 1;
        }
        proof {
            assert(self@.take(n as int) =~= self@);
        }
        crate::text::chars_to_string(&out)
    }
}

/// Plants the standard vegetable patch into the ledger: 50 tomatoes and 30
/// carrots in, 10 tomatoes straight back out. Afterwards both crops stand
/// in the ledger.
pub fn manage_vegetables(manager: &mut CropManager)
    requires
        old(manager).wf(),
        crops_has(old(manager)@, "tomato"@) ==> crops_qty(old(manager)@, "tomato"@) + 50
            <= usize::MAX,
        crops_has(old(manager)@, "carrot"@) ==> crops_qty(old(manager)@, "carrot"@) + 30
            <= usize::MAX,
    ensures
        final(manager).wf(),
        crops_has(final(manager)@, "tomato"@),
        crops_has(final(manager)@, "carrot"@),
{
    proof {
        reveal_strlit("tomato");
        reveal_strlit("carrot");
        assert("tomato"@[0] == 't' && "carrot"@[0] == 'c');
        assert("tomato"@ != "carrot"@);
    }
    let ghost s0 = manager@;
    manager.plant("tomato", 50);
    let ghost s1 = manager@;
    proof {
        if crops_has(s0, "tomato"@) {
            assert(s1[crops_index(s0, "tomato"@)].0 == "tomato"@);
        } else {
            assert(s1[s1.len() - 1].0 == "tomato"@);
        }
        assert(crops_has(s1, "tomato"@));
        if crops_has(s1, "carrot"@) {
            let w = choose|w: int| 0 <= w < s1.len() && s1[w].0 == "carrot"@;
            if crops_has(s0, "tomato"@) {
                let ti = crops_index(s0, "tomato"@);
                assert(s0[ti].0 == "tomato"@);
                assert(w != ti);
                assert(s1[w] == s0[w]);
            } else {
                assert(w < s0.len());
                assert(s1[w] == s0[w]);
            }
            assert(crops_has(s0, "carrot"@));
            lemma_crops_index_unique(s0, "carrot"@, w);
            lemma_crops_index_unique(s1, "carrot"@, w);
            assert(crops_qty(s1, "carrot"@) == crops_qty(s0, "carrot"@));
        }
    }
    manager.plant("carrot", 30);
    let ghost s2 = manager@;
    proof {
        if crops_has(s1, "carrot"@) {
            assert(s2[crops_index(s1, "carrot"@)].0 == "carrot"@);
        } else {
            assert(s2[s2.len() - 1].0 == "carrot"@);
        }
        assert(crops_has(s2, "carrot"@));
        let wt = choose|w: int| 0 <= w < s1.len() && s1[w].0 == "tomato"@;
        if crops_has(s1, "carrot"@) {
            let ci = crops_index(s1, "carrot"@);
            assert(s1[ci].0 == "carrot"@);
            assert(wt != ci);
            assert(s2[wt] == s1[wt]);
        } else {
            assert(s2[wt] == s1[wt]);
        }
        assert(crops_has(s2, "tomato"@));
    }
    let r = manager.harvest("tomato", 10);
    proof {
        let s3 = manager@;
        match r {
            Some(_) => {
                let ti = crops_index(s2, "tomato"@);
                assert(s3[ti].0 == "tomato"@);
                assert(crops_has(s3, "tomato"@));
                let wc = choose|w: int| 0 <= w < s2.len() && s2[w].0 == "carrot"@;
                assert(s2[ti].0 == "tomato"@);
                assert(wc != ti);
                assert(s3[wc] == s2[wc]);
                assert(crops_has(s3, "carrot"@));
            },
            None => {
            },
        }
    }
}

/// The harvest seasons of the fruit kinds: apples in autumn, strawberries
/// in spring.
pub fn get_fruit_seasons() -> (r: Vec<(String, String)>)
    ensures
        r@.len() == 2,
        r@[0].0@ == "apple"@ && r@[0].1@ == "秋季"@,
        r@[1].0@ == "strawberry"@ && r@[1].1@ == "春季"@,
{
    let mut v: Vec<(String, String)> = Vec::new();
    v.push(("apple".to_owned(), "秋季".to_owned()));
    v.push(("strawberry".to_owned(), "春季".to_owned()));
    v
}

/// An animal of the farm: name, species, age and whether it has been fed.
#[derive(Debug)]
pub struct Animal {
    pub name: String,
    pub species: String,
    pub age: u8,
    pub fed: bool,
}

impl Animal {
    /// A new, not yet fed animal.
    pub fn new(name: &str, species: &str, age: u8) -> (a: Animal)
        ensures
            a.name@ == name@,
            a.species@ == species@,
            a.age == age,
            a.fed == false,
    {
        Animal { name: name.to_owned(), species: species.to_owned(), age, fed: false }
    }

    /// Feeds the animal; nothing else changes.
    pub fn feed(&mut self)
        ensures
            final(self).fed == true,
            final(self).name@ == old(self).name@,
            final(self).species@ == old(self).species@,
            final(self).age == old(self).age,
    {
        self.fed = true;
    }

    /// One line about the animal: name, species, age, and whether it has
    /// been fed yet.
    pub fn get_info(&self) -> (r: String)
        ensures
            r@ == self.name@ + " 是 "@ + self.species@ + "，年龄 "@ + dec_digits(self.age as nat)
                + " 岁，"@ + (if self.fed {
                Seq::<char>::empty()
            } else {
                "尚未"@
            }) + "已喂食"@,
    {
        let mid = if self.fed {
            ""
        } else {
            "尚未"
        };
        proof {
            reveal_strlit("");
            assert(""@ =~= Seq::<char>::empty());
        }
        let num = dec_string(self.age as u64);
        self.name.clone().concat(" 是 ").concat(self.species.as_str()).concat("，年龄 ").concat(
            num.as_str(),
        ).concat(" 岁，").concat(mid).concat("已喂食")
    }
}

/// The farm's service interface.
pub struct FarmAPI;

impl FarmAPI {
    /// An instance of the service interface.
    pub fn new() -> FarmAPI {
        FarmAPI
    }

    /// The service is up.
    pub fn health_check() -> (r: bool)
        ensures
            r == true,
    {
        true
    }
}

/// An account of the user service.
#[derive(Debug)]
pub struct User {
    pub id: u64,
    pub username: String,
    pub email: String,
}

/// Holds the accounts and assigns their identifiers.
pub struct UserService {
    users: Vec<User>,
    next_id: u64,
}

/// Ghost image of an account.
#[verifier::ext_equal]
pub struct UserView {
    pub id: u64,
    pub username: Seq<char>,
    pub email: Seq<char>,
}

impl View for User {
    type V = UserView;

    open spec fn view(&self) -> UserView {
        UserView { id: self.id, username: self.username@, email: self.email@ }
    }
}

impl View for UserService {
    type V = Seq<UserView>;

    closed spec fn view(&self) -> Seq<UserView> {
        Seq::new(self.users@.len(), |i: int| self.users@[i]@)
    }
}

/// Some account of `s` carries identifier `id`.
pub open spec fn users_has(s: Seq<UserView>, id: u64) -> bool {
    exists|i: int| 0 <= i < s.len() && s[i].id == id
}

/// Position of the account carrying `id`.
pub open spec fn users_index(s: Seq<UserView>, id: u64) -> int {
    choose|i: int| 0 <= i < s.len() && s[i].id == id
}

impl UserService {
    /// The identifier the next account will receive.
    pub closed spec fn spec_next_id(self) -> u64 {
        self.next_id
    }

    /// Service invariant: identifiers strictly increase along the list and
    /// lie below the counter.
    pub open spec fn wf(self) -> bool {
        &&& forall|p: int, q: int| 0 <= p < q < self@.len() ==> self@[p].id < self@[q].id
        &&& forall|i: int| 0 <= i < self@.len() ==> self@[i].id < self.spec_next_id()
        &&& self.spec_next_id() >= 1
    }

    /// An empty service; the first account receives identifier 1.
    pub fn new() -> (s: UserService)
        ensures
            s.wf(),
            s@ == Seq::<UserView>::empty(),
            s.spec_next_id() == 1,
    {
        let s = UserService { users: Vec::new(), next_id: 1 };
        proof {
            assert(s@ =~= Seq::<UserView>::empty());
        }
        s
    }

    /// Creates an account under the next identifier and returns a copy of
    /// it.
    pub fn create_user(&mut self, username: String, email: String) -> (u: User)
        requires
            old(self).wf(),
            old(self).spec_next_id() < u64::MAX,
        ensures
            final(self).wf(),
            u@ == (UserView { id: old(self).spec_next_id(), username: username@, email: email@ }),
            final(self)@ == old(self)@.push(u@),
            final(self).spec_next_id() == old(self).spec_next_id() + 1,
    {
        let ghost pre = self@;
        let id = self.next_id;
        let user = User { id, username, email };
        let copy = User {
            id,
            username: user.username.clone(),
            email: user.email.clone(),
        };
        self.users.push(user);
        self.next_id = self.next_id + 1;
        proof {
            assert(self@ =~= pre.push(copy@));
            assert forall|p: int, q: int| 0 <= p < q < self@.len() implies self@[p].id
                < self@[q].id by {
                if q == self@.len() - 1 {
                    assert(self@[p] == pre[p]);
                }
            }
        }
        copy
    }

    /// Looks an account up by identifier: returns it exactly when the
    /// service holds that identifier.
    pub fn get_user(&self, id: u64) -> (r: Option<&User>)
        requires
            self.wf(),
        ensures
            match r {
                Some(u) => users_has(self@, id) && u@ == self@[users_index(self@, id)],
                None => !users_has(self@, id),
            },
    {
        let n = self.users.len();
        let mut i: usize = 0;
        while i < n
            invariant
                n == self.users@.len(),
                n == self@.len(),
                0 <= i <= n,
                self.wf(),
                forall|k: int| 0 <= k < i ==> self@[k].id != id,
            decreases n - i,
        {
            if self.users[i].id == id {
                proof {
                    let s = self@;
                    assert(s[i as int].id == id);
                    assert(users_has(s, id));
                    let j = users_index(s, id);
                    if (i as int) < j {
                        assert(s[i as int].id < s[j].id);
                    } else if j < i as int {
                        assert(s[j].id < s[i as int].id);
                    }
                }
                return Some(&self.users[i]);
            }
            i = i + 1;
        }
        None
    }
}

/// The gateway in front of the user service.
pub struct ApiGateway {
    user_service: UserService,
}

impl ApiGateway {
    /// Ghost image of the accounts behind the gateway.
    pub closed spec fn spec_users(self) -> Seq<UserView> {
        self.user_service@
    }

    /// Gateway invariant: the service behind it is well-formed.
    pub closed spec fn wf(self) -> bool {
        self.user_service.wf()
    }

    /// A gateway over an empty service.
    pub fn new() -> (g: ApiGateway)
        ensures
            g.wf(),
            g.spec_users() == Seq::<UserView>::empty(),
    {
        ApiGateway { user_service: UserService::new() }
    }

    /// The profile line of an account: present exactly when the identifier
    /// is known, and naming the account's user name and address.
    pub fn get_user_profile(&self, user_id: u64) -> (r: Option<String>)
        requires
            self.wf(),
        ensures
            match r {
                Some(line) => users_has(self.spec_users(), user_id) && line@ == "用户: "@
                    + self.spec_users()[users_index(self.spec_users(), user_id)].username + " ("@
                    + self.spec_users()[users_index(self.spec_users(), user_id)].email + ")"@,
                None => !users_has(self.spec_users(), user_id),
            },
    {
        match self.user_service.get_user(user_id) {
            Some(user) => Some(
                "用户: ".to_owned().concat(user.username.as_str()).concat(" (").concat(
                    user.email.as_str(),
                ).concat(")"),
            ),
            None => None,
        }
    }
}

} // verus!
