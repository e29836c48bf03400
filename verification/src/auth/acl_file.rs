//! Authorization by an ACL file of `client permission topic` lines.

use crate::auth::traits::{AuthError, Authorizer};
use crate::text::{
    chars_equal, chars_of, find_char, line_ranges, split_once, substring, text_lines, trim,
    trim_range,
};
use vstd::prelude::*;

verus! {

/// What a rule allows.
#[derive(Debug, Clone, Copy, PartialEq, Eq, Structural)]
pub enum Permission {
    Publish,
    Subscribe,
    PublishSubscribe,
}

/// One line of an ACL file: a client, what it may do, and the topic filter it
/// may do it on (compared as a plain string).
#[derive(Debug)]
pub struct AclRule {
    pub client_id: String,
    pub permission: Permission,
    pub topic_filter: String,
}

pub struct RuleModel {
    pub client_id: Seq<char>,
    pub permission: Permission,
    pub topic_filter: Seq<char>,
}

impl View for AclRule {
    type V = RuleModel;

    open spec fn view(&self) -> RuleModel {
        RuleModel { client_id: self.client_id@, permission: self.permission, topic_filter: self.topic_filter@ }
    }
}

/// The permission a word names: `pub`, `sub` or `pubsub`.
pub open spec fn permission_of(w: Seq<char>) -> Option<Permission> {
    if w == seq!['p', 'u', 'b'] {
        Some(Permission::Publish)
    } else if w == seq!['s', 'u', 'b'] {
        Some(Permission::Subscribe)
    } else if w == seq!['p', 'u', 'b', 's', 'u', 'b'] {
        Some(Permission::PublishSubscribe)
    } else {
        None
    }
}

/// The rule a line of an ACL file gives: after trimming, nothing for an empty
/// line or a comment (`#`); otherwise the line split at its first two spaces
/// into client id, permission and topic filter (the filter keeps any further
/// spaces); a line with fewer parts or an unknown permission gives nothing.
pub open spec fn acl_line(l: Seq<char>) -> Option<RuleModel> {
    let t = trim(l);
    if t.len() == 0 || t[0] == '#' {
        None
    } else {
        match split_once(t, ' ') {
            Some((client, rest)) => match split_once(rest, ' ') {
                Some((perm, filter)) => match permission_of(perm) {
                    Some(p) => Some(RuleModel { client_id: client, permission: p, topic_filter: filter }),
                    None => None,
                },
                None => None,
            },
            None => None,
        }
    }
}

/// The rules of an ACL file, in file order.
pub open spec fn acl_rules(contents: Seq<char>) -> Seq<RuleModel> {
    text_lines(contents).filter_map(|l: Seq<char>| acl_line(l))
}

/// Whether a rule grants publishing to the client on the topic.
pub open spec fn grants_publish(r: RuleModel, client_id: Seq<char>, topic: Seq<char>) -> bool {
    r.client_id == client_id && (r.permission == Permission::Publish || r.permission
        == Permission::PublishSubscribe) && r.topic_filter == topic
}

/// Whether a rule grants subscribing to the client on the filter.
pub open spec fn grants_subscribe(r: RuleModel, client_id: Seq<char>, filter: Seq<char>) -> bool {
    r.client_id == client_id && (r.permission == Permission::Subscribe || r.permission
        == Permission::PublishSubscribe) && r.topic_filter == filter
}

pub open spec fn rules_view(v: Seq<AclRule>) -> Seq<RuleModel> {
    v.map_values(|r: AclRule| r@)
}

/// Allows what the rules of an ACL file grant, nothing else.
#[derive(Debug)]
pub struct AclFileAuthorizer {
    rules: Vec<AclRule>,
}

fn permission_from(chars: &[char], a: usize, b: usize) -> (r: Option<Permission>)
    requires
        a <= b <= chars@.len(),
    ensures
        r == permission_of(chars@.subrange(a as int, b as int)),
{
    let w = &chars[a..b];
    let ghost wv = chars@.subrange(a as int, b as int);
    assert(w@ == wv);
    let pub_word = ['p', 'u', 'b'];
    let sub_word = ['s', 'u', 'b'];
    let pubsub_word = ['p', 'u', 'b', 's', 'u', 'b'];
    assert(pub_word@ =~= seq!['p', 'u', 'b']);
    assert(sub_word@ =~= seq!['s', 'u', 'b']);
    assert(pubsub_word@ =~= seq!['p', 'u', 'b', 's', 'u', 'b']);
    if chars_equal(w, &pub_word) {
        Some(Permission::Publish)
    } else if chars_equal(w, &sub_word) {
        Some(Permission::Subscribe)
    } else if chars_equal(w, &pubsub_word) {
        Some(Permission::PublishSubscribe)
    } else {
        None
    }
}

impl AclFileAuthorizer {
    /// The rules, in file order.
    pub closed spec fn rules(&self) -> Seq<RuleModel> {
        rules_view(self.rules@)
    }

    /// Reads the rules of an ACL file's contents.
    pub fn parse(contents: &str) -> (r: AclFileAuthorizer)
        ensures
            r.rules() == acl_rules(contents@),
    {
        let chars = chars_of(contents);
        let lines = line_ranges(chars.as_slice());
        let ghost ls = text_lines(contents@);
        let ghost f = |l: Seq<char>| acl_line(l);
        let mut rules: Vec<AclRule> = Vec::new();
        let mut k: usize = 0;
        assert(ls.take(0) =~= Seq::<Seq<char>>::empty());
        assert(rules_view(rules@) =~= Seq::<RuleModel>::empty());
        while k < lines.len()
            invariant
                chars@ == contents@,
                ls == text_lines(contents@),
                f == (|l: Seq<char>| acl_line(l)),
                lines@.len() == ls.len(),
                forall|j: int| 0 <= j < lines@.len() ==> (#[trigger] lines@[j]).0 <= lines@[j].1 && lines@[j].1 <= chars@.len(),
                forall|j: int| 0 <= j < lines@.len() ==> #[trigger] ls[j] == chars@.subrange(lines@[j].0 as int, lines@[j].1 as int),
                k <= lines@.len(),
                rules_view(rules@) == ls.take(k as int).filter_map(f),
            decreases lines@.len() - k,
        {
            proof {
                ls.lemma_filter_map_take_succ(f, k as int);
            }
            let (a, b) = lines[k];
            assert(lines@[k as int] == (a, b));
            let (x, y) = trim_range(chars.as_slice(), a, b);
            let ghost t = chars@.subrange(x as int, y as int);
            assert(t == trim(ls[k as int]));
            let ghost before = rules@;
            if x == y || chars[x] == '#' {
                assert(t.len() == 0 || t[0] == '#');
            } else {
                match find_char(chars.as_slice(), x, y, ' ') {
                    Some(i) => {
                        let ghost rest = t.skip(i + 1);
                        assert(t.take(i as int) =~= chars@.subrange(x as int, (x + i) as int));
                        assert(rest =~= chars@.subrange((x + i + 1) as int, y as int));
                        assert(t.contains(' '));
                        let r0 = x + i + 1;
                        match find_char(chars.as_slice(), r0, y, ' ') {
                            Some(j) => {
                                assert(rest.contains(' '));
                                assert(rest.take(j as int) =~= chars@.subrange(r0 as int, (r0 + j) as int));
                                assert(rest.skip(j + 1) =~= chars@.subrange((r0 + j + 1) as int, y as int));
                                match permission_from(chars.as_slice(), r0, r0 + j) {
                                    Some(permission) => {
                                        let client_id = substring(contents, x, x + i);
                                        let topic_filter = substring(contents, r0 + j + 1, y);
                                        rules.push(AclRule { client_id, permission, topic_filter });
                                        assert(rules_view(rules@) =~= rules_view(before).push(
                                            RuleModel {
                                                client_id: t.take(i as int),
                                                permission,
                                                topic_filter: rest.skip(j + 1),
                                            },
                                        ));
                                    },
                                    None => {},
                                }
                            },
                            None => {},
                        }
                    },
                    None => {},
                }
            }
            k += 1;
        }
        assert(ls.take(ls.len() as int) =~= ls);
        AclFileAuthorizer { rules }
    }
}

impl Authorizer for AclFileAuthorizer {
    open spec fn publish_allowed(&self, client_id: Seq<char>, topic: Seq<char>) -> bool {
        exists|i: int| 0 <= i < self.rules().len() && grants_publish(#[trigger] self.rules()[i], client_id, topic)
    }

    open spec fn subscribe_allowed(&self, client_id: Seq<char>, topic_filter: Seq<char>) -> bool {
        exists|i: int| 0 <= i < self.rules().len() && grants_subscribe(#[trigger] self.rules()[i], client_id, topic_filter)
    }

    fn authorize_publish(&self, client_id: &str, topic: &str) -> (r: Result<(), AuthError>)
        ensures
            r is Err ==> r == Err::<(), AuthError>(AuthError::NotAuthorized),
    {
        let c = client_id.to_owned();
        let t = topic.to_owned();
        let mut i: usize = 0;
        while i < self.rules.len()
            invariant
                c@ == client_id@,
                t@ == topic@,
                i <= self.rules().len(),
                forall|k: int| 0 <= k < i ==> !grants_publish(#[trigger] self.rules()[k], client_id@, topic@),
            decreases self.rules().len() - i,
        {
            let rule = &self.rules[i];
            assert(self.rules()[i as int] == rule@);
            let may_publish = match rule.permission {
                Permission::Publish => true,
                Permission::PublishSubscribe => true,
                Permission::Subscribe => false,
            };
            if rule.client_id == c && may_publish && rule.topic_filter == t {
                assert(grants_publish(self.rules()[i as int], client_id@, topic@));
                return Ok(());
            }
            i += 1;
        }
        Err(AuthError::NotAuthorized)
    }

    fn authorize_subscribe(&self, client_id: &str, topic_filter: &str) -> (r: Result<(), AuthError>)
        ensures
            r is Err ==> r == Err::<(), AuthError>(AuthError::NotAuthorized),
    {
        let c = client_id.to_owned();
        let t = topic_filter.to_owned();
        let mut i: usize = 0;
        while i < self.rules.len()
            invariant
                c@ == client_id@,
                t@ == topic_filter@,
                i <= self.rules().len(),
                forall|k: int| 0 <= k < i ==> !grants_subscribe(#[trigger] self.rules()[k], client_id@, topic_filter@),
            decreases self.rules().len() - i,
        {
            let rule = &self.rules[i];
            assert(self.rules()[i as int] == rule@);
            let may_subscribe = match rule.permission {
                Permission::Subscribe => true,
                Permission::PublishSubscribe => true,
                Permission::Publish => false,
            };
            if rule.client_id == c && may_subscribe && rule.topic_filter == t {
                assert(grants_subscribe(self.rules()[i as int], client_id@, topic_filter@));
                return Ok(());
            }
            i += 1;
        }
        Err(AuthError::NotAuthorized)
    }
}

} // verus!
