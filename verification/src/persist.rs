//! Where the credentials of one domain are kept: the naming of the files.
//!
//! A store keeps up to three files in one directory, named after the domain
//! and after what they hold. Reading and writing them is left to the caller.

use vstd::prelude::*;
use vstd::string::{StrSliceExecFns, StringExecFns};

verus! {

/// What a stored file holds.
#[derive(Debug, Clone, Copy, PartialEq, Eq, Structural)]
pub enum PersistKind {
    /// The certificate issued for the domain.
    Certificate,
    /// The private key of the certificate.
    PrivateKey,
    /// The private key of the account that ordered the certificate.
    AccountPrivateKey,
}

/// `text` with every `*` spelled out as `STAR`, so that the name of a
/// wildcard domain can serve as a file name.
pub open spec fn star_spelled(text: Seq<char>) -> Seq<char>
    decreases text.len(),
{
    if text.len() == 0 {
        Seq::empty()
    } else {
        star_spelled(text.drop_last()) + (if text.last() == '*' {
            "STAR"@
        } else {
            seq![text.last()]
        })
    }
}

/// The ending of the name of a file that holds `kind`.
pub open spec fn suffix_of(kind: PersistKind) -> Seq<char> {
    match kind {
        PersistKind::Certificate => ".crt"@,
        PersistKind::PrivateKey => ".key"@,
        PersistKind::AccountPrivateKey => "_account.key"@,
    }
}

/// The name of the file that holds `kind` for `domain`.
pub open spec fn file_name(domain: Seq<char>, kind: PersistKind) -> Seq<char> {
    star_spelled(domain) + suffix_of(kind)
}

/// True of the kinds that only the owner of the files may read.
pub open spec fn is_secret(kind: PersistKind) -> bool {
    kind != PersistKind::Certificate
}

/// A store of the credentials of one domain in one directory.
pub struct FilePersist<'a> {
    dir: String,
    domain: &'a str,
}

impl<'a> Clone for FilePersist<'a> {
    fn clone(&self) -> (copy: Self)
        ensures
            copy.dir_text() == self.dir_text(),
            copy.domain_text() == self.domain_text(),
    {
        FilePersist { dir: self.dir.clone(), domain: self.domain }
    }
}

impl<'a> FilePersist<'a> {
    /// The directory of the store.
    pub closed spec fn dir_text(&self) -> Seq<char> {
        self.dir@
    }

    /// The domain of the store.
    pub closed spec fn domain_text(&self) -> Seq<char> {
        self.domain@
    }

    /// A store for `domain` in the directory `dir`.
    pub fn new(dir: &str, domain: &'a str) -> (store: Self)
        ensures
            store.dir_text() == dir@,
            store.domain_text() == domain@,
    {
        FilePersist { dir: dir.to_owned(), domain: domain }
    }

    /// The directory of the store.
    pub fn dir(&self) -> (dir: &str)
        ensures
            dir@ == self.dir_text(),
    {
        self.dir.as_str()
    }

    /// The domain of the store.
    pub fn domain(&self) -> (domain: &'a str)
        ensures
            domain@ == self.domain_text(),
    {
        self.domain
    }

    /// The name, within the directory, of the file that holds `kind`.
    pub fn file_name_of(&self, kind: PersistKind) -> (name: String)
        ensures
            name@ == file_name(self.domain_text(), kind),
    {
        let count: usize = self.domain.unicode_len();
        let mut name: String = String::new();
        let mut i: usize = 0;
        assert(self.domain@.take(0) =~= Seq::<char>::empty());
        while i < count
            invariant
                count == self.domain@.len(),
                i <= count,
                name@ == star_spelled(self.domain@.take(i as int)),
            decreases count - i,
        {
            let c: char = self.domain.get_char(i);
            proof {
                let next = self.domain@.take(i + 1);
                assert(next.drop_last() =~= self.domain@.take(i as int));
                assert(next.last() == c);
            }
            if c == '*' {
                name.append("STAR");
            } else {
                name.append(self.domain.substring_char(i, i + 1));
                assert(self.domain@.subrange(i as int, i + 1) =~= seq![c]);
            }
            i = i + 1;
        }
        assert(self.domain@.take(i as int) =~= self.domain@);
        match kind {
            PersistKind::Certificate => name.append(".crt"),
            PersistKind::PrivateKey => name.append(".key"),
            PersistKind::AccountPrivateKey => name.append("_account.key"),
        }
        name
    }

    /// Whether the file that holds `kind` is to be readable by its owner
    /// only: true of the two private keys.
    pub fn owner_only(kind: PersistKind) -> (secret: bool)
        ensures
            secret == is_secret(kind),
    {
        match kind {
            PersistKind::Certificate => false,
            PersistKind::PrivateKey => true,
            PersistKind::AccountPrivateKey => true,
        }
    }
}

/// No file name holds a `*`, whatever the domain.
pub proof fn file_name_has_no_star(domain: Seq<char>, kind: PersistKind)
    ensures
        forall|i: int| 0 <= i < file_name(domain, kind).len() ==> file_name(domain, kind)[i] != '*',
{
    reveal_strlit(".crt");
    reveal_strlit(".key");
    reveal_strlit("_account.key");
    star_spelled_has_no_star(domain);
    let stem = star_spelled(domain);
    let name = file_name(domain, kind);
    assert forall|i: int| 0 <= i < name.len() implies name[i] != '*' by {
        if i < stem.len() {
            assert(name[i] == stem[i]);
        } else {
            assert(name[i] == suffix_of(kind)[i - stem.len()]);
        }
    }
}

proof fn star_spelled_has_no_star(text: Seq<char>)
    ensures
        forall|i: int| 0 <= i < star_spelled(text).len() ==> star_spelled(text)[i] != '*',
    decreases text.len(),
{
    reveal_strlit("STAR");
    if text.len() > 0 {
        star_spelled_has_no_star(text.drop_last());
        let before = star_spelled(text.drop_last());
        let piece = if text.last() == '*' {
            "STAR"@
        } else {
            seq![text.last()]
        };
        assert(star_spelled(text) == before + piece);
        assert forall|i: int| 0 <= i < star_spelled(text).len() implies star_spelled(text)[i]
            != '*' by {
            if i < before.len() {
                assert(star_spelled(text)[i] == before[i]);
            } else {
                assert(star_spelled(text)[i] == piece[i - before.len()]);
            }
        }
    }
}

/// A domain without a `*` is spelled as it is.
pub proof fn plain_domain_is_kept(text: Seq<char>)
    requires
        forall|i: int| 0 <= i < text.len() ==> text[i] != '*',
    ensures
        star_spelled(text) == text,
    decreases text.len(),
{
    if text.len() > 0 {
        plain_domain_is_kept(text.drop_last());
        assert(text.drop_last() + seq![text.last()] =~= text);
    }
}

} // verus!
