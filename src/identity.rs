use vstd::prelude::*;
use crate::text::{text_of, is_first_separator, lemma_first_separator_unique, find_separator};

verus! {

/// A combined `domain\name` display string split on its first backslash into
/// (name, domain); without a backslash the whole string is the name.
pub open spec fn split_display_name(u: Seq<char>) -> (Seq<char>, Option<Seq<char>>) {
    if exists|k: int| is_first_separator(u, k) {
        let k = choose|k: int| is_first_separator(u, k);
        (u.subrange(k + 1, u.len() as int), Some(u.subrange(0, k)))
    } else {
        (u, None)
    }
}

/// The (name, domain) stored for an identity reported with the given fields:
/// a separate domain is taken as it is, a combined display name is split.
pub open spec fn identity_fields(
    username: Option<Seq<char>>,
    domain: Option<Seq<char>>,
) -> (Option<Seq<char>>, Option<Seq<char>>) {
    match username {
        Some(u) => match domain {
            Some(d) => (Some(u), Some(d)),
            None => (Some(split_display_name(u).0), split_display_name(u).1),
        },
        None => (None, domain),
    }
}

/// The display fields of an identity.
#[derive(Debug, Clone, PartialEq, Eq)]
pub struct IdentityName {
    pub username: Option<String>,
    pub domain: Option<String>,
}

pub fn split_identity(username: &Option<String>, domain: &Option<String>) -> (r: IdentityName)
    ensures
        (text_of(r.username), text_of(r.domain)) == identity_fields(text_of(*username), text_of(*domain)),
{
    match username {
        None => IdentityName { username: None, domain: crate::text::copy_opt_text(domain) },
        Some(u) => match domain {
            Some(d) => IdentityName { username: Some(u.clone()), domain: Some(d.clone()) },
            None => {
                let s = u.as_str();
                match find_separator(s) {
                    Some(k) => {
                        let n = s.unicode_len();
                        let name = String::from_str(s.substring_char(k + 1, n));
                        let dom = String::from_str(s.substring_char(0, k));
                        proof {
                            let kk = choose|j: int| is_first_separator(u@, j);
                            lemma_first_separator_unique(u@, k as int, kk);
                        }
                        IdentityName { username: Some(name), domain: Some(dom) }
                    },
                    None => IdentityName { username: Some(u.clone()), domain: None },
                }
            },
        },
    }
}

} // verus!
