//! Users and authorities, with the built-in test credential store.

use vstd::prelude::*;

use crate::error::AppErrorKind;
use crate::strutil::str_eq;

verus! {

/// What a user may do.
#[derive(Debug, Clone, PartialEq, Eq, Structural)]
pub enum UserAuthority {
    Guest,
    User,
    Admin,
}

impl Default for UserAuthority {
    fn default() -> (r: UserAuthority)
        ensures
            r == UserAuthority::Guest,
    {
        UserAuthority::Guest
    }
}

/// A logged-in user: a name and an authority.
#[derive(Debug, Clone)]
pub struct User {
    pub username: String,
    pub authority: UserAuthority,
}

impl Default for User {
    fn default() -> (r: User)
        ensures
            r.username@ == "Guest"@,
            r.authority == UserAuthority::Guest,
    {
        User { username: "Guest".to_owned(), authority: UserAuthority::Guest }
    }
}

/// A login request.
#[derive(Debug, Default, Clone)]
pub struct Login {
    pub username: String,
    pub password: String,
}

/// The built-in credentials accept exactly these pairs.
pub open spec fn valid_credentials(username: Seq<char>, password: Seq<char>) -> bool {
    ||| username == "admin"@ && password == "admin123"@
    ||| username == "nick"@ && password == "testing"@
    ||| username == "guest"@ && password == "guest"@
}

impl User {
    /// Persists user changes; there is no store yet, so this always
    /// succeeds without an effect.
    pub fn save(&self) -> (r: Result<(), AppErrorKind>)
        ensures
            r is Ok,
    {
        Ok(())
    }

    /// Deletes the user; there is no store yet, so this always succeeds
    /// without an effect.
    pub fn delete(&self) -> (r: Result<(), AppErrorKind>)
        ensures
            r is Ok,
    {
        Ok(())
    }

    /// Looks a user up in the built-in test credential store: exactly
    /// the known username/password pairs succeed, with the authority
    /// each name carries; everything else is `InvalidUserCredentials`.
    pub fn test_only_get_user(username: &str, password: &str) -> (r: Result<User, AppErrorKind>)
        ensures
            r is Ok <==> valid_credentials(username@, password@),
            r matches Ok(u) ==> u.username@ == username@,
            username@ == "admin"@ && password@ == "admin123"@ ==> (r matches Ok(u) && u.authority
                == UserAuthority::Admin),
            username@ == "nick"@ && password@ == "testing"@ ==> (r matches Ok(u) && u.authority
                == UserAuthority::User),
            username@ == "guest"@ && password@ == "guest"@ ==> (r matches Ok(u) && u.authority
                == UserAuthority::Guest),
            r matches Err(e) ==> e == AppErrorKind::InvalidUserCredentials,
    {
        proof {
            reveal_strlit("admin");
            reveal_strlit("admin123");
            reveal_strlit("nick");
            reveal_strlit("testing");
            reveal_strlit("guest");
            assert("admin"@[0] == 'a');
            assert("guest"@[0] == 'g');
            assert("admin"@ != "guest"@);
            assert("admin"@.len() != "nick"@.len());
            assert("nick"@.len() != "guest"@.len());
        }
        if str_eq(username, "admin") {
            if str_eq(password, "admin123") {
                Ok(User { username: "admin".to_owned(), authority: UserAuthority::Admin })
            } else {
                Err(AppErrorKind::InvalidUserCredentials)
            }
        } else if str_eq(username, "nick") {
            if str_eq(password, "testing") {
                Ok(User { username: "nick".to_owned(), authority: UserAuthority::User })
            } else {
                Err(AppErrorKind::InvalidUserCredentials)
            }
        } else if str_eq(username, "guest") {
            if str_eq(password, "guest") {
                Ok(User { username: "guest".to_owned(), authority: UserAuthority::Guest })
            } else {
                Err(AppErrorKind::InvalidUserCredentials)
            }
        } else {
            Err(AppErrorKind::InvalidUserCredentials)
        }
    }
}

} // verus!
