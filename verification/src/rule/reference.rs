//! Passwords that a candidate password is compared with: earlier passwords
//! of the user and passwords of other systems.
use vstd::prelude::*;

verus! {

/// What a reference password is, which decides the rules that look at it.
#[derive(Debug, Eq, PartialEq, Hash, Clone, Copy, Structural)]
pub enum ReferenceKind {
    /// An earlier password of the same user.
    Historical,
    /// The user's password in another system.
    Source,
    /// Anything else; no rule of this library looks at it.
    Other,
}

/// The text of a salt and the side of the password it goes to.
pub enum SaltView {
    Prefix(Seq<char>),
    Suffix(Seq<char>),
}

/// What a reference says.
pub struct ReferenceView {
    pub kind: ReferenceKind,
    /// The password, in clear or digested.
    pub password: Seq<char>,
    /// The salt that went into the digest, if any.
    pub salt: Option<SaltView>,
    /// A name for where the password comes from, if any.
    pub label: Option<Seq<char>>,
}

/// A password to compare a candidate with.
pub trait Reference {
    /// What the reference says.
    spec fn model(&self) -> ReferenceView;

    /// Returns what the reference is.
    fn kind(&self) -> (kind: ReferenceKind)
        ensures
            kind == self.model().kind,
    ;

    /// Returns the password.
    fn password(&self) -> (password: &str)
        ensures
            password@ == self.model().password,
    ;

    /// Returns the salt.
    fn salt(&self) -> (salt: &Option<Salt>)
        ensures
            salt_view(*salt) == self.model().salt,
    ;

    /// Returns the label.
    fn label_text(&self) -> (label: Option<&str>)
        ensures
            label is Some == self.model().label is Some,
            label matches Some(text) ==> text@ == self.model().label.unwrap(),
    ;
}

/// A salt and the side of the password that it goes to.
pub enum Salt {
    Prefix(String),
    Suffix(String),
}

impl View for Salt {
    type V = SaltView;

    open spec fn view(&self) -> SaltView {
        match self {
            Salt::Prefix(s) => SaltView::Prefix(s@),
            Salt::Suffix(s) => SaltView::Suffix(s@),
        }
    }
}

/// The view of a salt that may be missing.
pub open spec fn salt_view(salt: Option<Salt>) -> Option<SaltView> {
    match salt {
        Some(s) => Some(s@),
        None => None,
    }
}

/// The password with the salt on its side.
pub open spec fn salted(salt: SaltView, password: Seq<char>) -> Seq<char> {
    match salt {
        SaltView::Prefix(s) => s + password,
        SaltView::Suffix(s) => password + s,
    }
}

/// The password with the salt on its side, or as it is without a salt.
pub open spec fn undigested(salt: Option<SaltView>, password: Seq<char>) -> Seq<char> {
    match salt {
        Some(s) => salted(s, password),
        None => password,
    }
}

impl Salt {
    /// A salt that goes before the password.
    pub fn prefix(s: String) -> (salt: Salt)
        ensures
            salt@ == SaltView::Prefix(s@),
    {
        Salt::Prefix(s)
    }

    /// A salt that goes after the password.
    pub fn suffix(s: String) -> (salt: Salt)
        ensures
            salt@ == SaltView::Suffix(s@),
    {
        Salt::Suffix(s)
    }

    /// Puts the salt on its side of the password.
    pub fn apply_to(&self, password: String) -> (r: String)
        ensures
            r@ == salted(self@, password@),
    {
        match self {
            Salt::Prefix(s) => {
                let mut salted = s.clone();
                salted.append(password.as_str());
                salted
            },
            Salt::Suffix(s) => {
                let mut pass = password;
                pass.append(s.as_str());
                pass
            },
        }
    }
}

} // verus!
