//! Authentication against a password file of `user:password` lines.

use crate::auth::traits::{AuthError, Authenticator, Credentials, CredentialsModel};
use crate::buf::{bytes_as_slice, bytes_view};
use crate::text::{
    chars_of, find_char, line_ranges, split_once, substring, text_lines, trim, trim_range,
    string_from_utf8,
};
use vstd::prelude::*;
use vstd::utf8::{decode_utf8, valid_utf8};

verus! {

/// The entry a line of a password file gives: after trimming, nothing for an
/// empty line, a comment (`#`) or a line without `:`; otherwise the user name
/// before the first `:` and the password after it.
pub open spec fn password_line(l: Seq<char>) -> Option<(Seq<char>, Seq<char>)> {
    let t = trim(l);
    if t.len() == 0 || t[0] == '#' {
        None
    } else {
        split_once(t, ':')
    }
}

/// The entries of a password file, in file order.
pub open spec fn password_entries(contents: Seq<char>) -> Seq<(Seq<char>, Seq<char>)> {
    text_lines(contents).filter_map(|l: Seq<char>| password_line(l))
}

/// The password of a user: that of the last entry naming the user.
pub open spec fn stored_password(entries: Seq<(Seq<char>, Seq<char>)>, user: Seq<char>) -> Option<Seq<char>>
    decreases entries.len(),
{
    if entries.len() == 0 {
        None
    } else if entries.last().0 == user {
        Some(entries.last().1)
    } else {
        stored_password(entries.drop_last(), user)
    }
}

/// Whether the credentials match an entry: a user name and a password that
/// is valid UTF-8 and equals the user's stored password.
pub open spec fn password_matches(entries: Seq<(Seq<char>, Seq<char>)>, c: CredentialsModel) -> bool {
    match (c.username, c.password) {
        (Some(u), Some(p)) => valid_utf8(p) && stored_password(entries, u) == Some(decode_utf8(p)),
        _ => false,
    }
}

/// Accepts the clients whose user name and password match a password file.
#[derive(Debug)]
pub struct PasswordFileAuthenticator {
    credentials: Vec<(String, String)>,
}

pub open spec fn credential_pairs(v: Seq<(String, String)>) -> Seq<(Seq<char>, Seq<char>)> {
    v.map_values(|p: (String, String)| (p.0@, p.1@))
}

impl PasswordFileAuthenticator {
    /// The entries, in file order.
    pub closed spec fn entries(&self) -> Seq<(Seq<char>, Seq<char>)> {
        credential_pairs(self.credentials@)
    }

    /// Reads the entries of a password file's contents.
    pub fn parse(contents: &str) -> (r: PasswordFileAuthenticator)
        ensures
            r.entries() == password_entries(contents@),
    {
        let chars = chars_of(contents);
        let lines = line_ranges(chars.as_slice());
        let ghost ls = text_lines(contents@);
        let ghost f = |l: Seq<char>| password_line(l);
        let mut credentials: Vec<(String, String)> = Vec::new();
        let mut k: usize = 0;
        assert(ls.take(0) =~= Seq::<Seq<char>>::empty());
        assert(credential_pairs(credentials@) =~= Seq::<(Seq<char>, Seq<char>)>::empty());
        while k < lines.len()
            invariant
                chars@ == contents@,
                ls == text_lines(contents@),
                f == (|l: Seq<char>| password_line(l)),
                lines@.len() == ls.len(),
                forall|j: int| 0 <= j < lines@.len() ==> (#[trigger] lines@[j]).0 <= lines@[j].1 && lines@[j].1 <= chars@.len(),
                forall|j: int| 0 <= j < lines@.len() ==> #[trigger] ls[j] == chars@.subrange(lines@[j].0 as int, lines@[j].1 as int),
                k <= lines@.len(),
                credential_pairs(credentials@) == ls.take(k as int).filter_map(f),
            decreases lines@.len() - k,
        {
            proof {
                ls.lemma_filter_map_take_succ(f, k as int);
            }
            let (a, b) = lines[k];
            assert(lines@[k as int] == (a, b));
            let (x, y) = trim_range(chars.as_slice(), a, b);
            let ghost t = chars@.subrange(x as int, y as int);
            assert(t == trim(ls[k as int]));
            let ghost before = credentials@;
            if x == y || chars[x] == '#' {
                assert(t.len() == 0 || t[0] == '#');
            } else {
                match find_char(chars.as_slice(), x, y, ':') {
                    Some(i) => {
                        let user = substring(contents, x, x + i);
                        let password = substring(contents, x + i + 1, y);
                        assert(t.take(i as int) =~= chars@.subrange(x as int, (x + i) as int));
                        assert(t.skip(i + 1) =~= chars@.subrange((x + i + 1) as int, y as int));
                        assert(t.contains(':'));
                        credentials.push((user, password));
                        assert(credential_pairs(credentials@) =~= credential_pairs(before).push(
                            (t.take(i as int), t.skip(i + 1)),
                        ));
                    },
                    None => {},
                }
            }
            k += 1;
        }
        assert(ls.take(ls.len() as int) =~= ls);
        PasswordFileAuthenticator { credentials }
    }

    fn lookup(&self, username: &String) -> (r: Option<&String>)
        ensures
            match r {
                Some(p) => stored_password(self.entries(), username@) == Some(p@),
                None => stored_password(self.entries(), username@) is None,
            },
    {
        let ghost e = self.entries();
        let mut i = self.credentials.len();
        assert(e.take(i as int) =~= e);
        while i > 0
            invariant
                e == self.entries(),
                i <= e.len(),
                stored_password(e, username@) == stored_password(e.take(i as int), username@),
            decreases i,
        {
            let entry = &self.credentials[i - 1];
            assert(e[i - 1] == (entry.0@, entry.1@));
            assert(e.take(i as int).last() == e[i - 1]);
            assert(e.take(i as int).drop_last() =~= e.take(i - 1));
            if entry.0 == *username {
                return Some(&entry.1);
            }
            i -= 1;
        }
        None
    }
}

impl Authenticator for PasswordFileAuthenticator {
    open spec fn authentication(&self, c: CredentialsModel) -> Result<(), AuthError> {
        if password_matches(self.entries(), c) {
            Ok(())
        } else {
            Err(AuthError::InvalidCredentials)
        }
    }

    fn authenticate(&self, credentials: &Credentials) -> (r: Result<(), AuthError>) {
        let username = match &credentials.username {
            Some(u) => u,
            None => return Err(AuthError::InvalidCredentials),
        };
        let password = match &credentials.password {
            Some(p) => p,
            None => return Err(AuthError::InvalidCredentials),
        };
        let bytes = vstd::slice::slice_to_vec(bytes_as_slice(password));
        let password_str = match string_from_utf8(bytes) {
            Some(s) => s,
            None => return Err(AuthError::InvalidCredentials),
        };
        match self.lookup(username) {
            Some(stored) => if *stored == password_str {
                Ok(())
            } else {
                Err(AuthError::InvalidCredentials)
            },
            None => Err(AuthError::InvalidCredentials),
        }
    }
}

} // verus!
