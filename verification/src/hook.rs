//! What is known of a hook's environment and of the toolchain that it asks for.

use vstd::prelude::*;

use crate::deno::version::DenoRequest;
use crate::path::buf::PathBuf;
use crate::path::model::PathView;
use crate::rust::version::RustRequest;
use crate::strings;
use crate::version::{SemVer, Version};

verus! {

/// The toolchain that the configuration of a hook asks for.
#[derive(Debug, PartialEq)]
pub enum LanguageRequest {
    /// Any version. One that is already on the system, if `system_only` is set.
    Any { system_only: bool },
    Deno(DenoRequest),
    Rust(RustRequest),
}

/// A key with its value.
#[derive(Debug, PartialEq, Eq)]
pub struct Extra {
    pub key: String,
    pub value: String,
}

/// The keys and values that a list holds.
pub open spec fn extra_views(extras: Seq<Extra>) -> Seq<(Seq<char>, Seq<char>)> {
    extras.map_values(|e: Extra| (e.key@, e.value@))
}

/// The value of a key: the first that the list gives it.
pub open spec fn extra_of(extras: Seq<(Seq<char>, Seq<char>)>, key: Seq<char>) -> Option<Seq<char>>
    decreases extras.len(),
{
    if extras.len() == 0 {
        None
    } else if extras[0].0 == key {
        Some(extras[0].1)
    } else {
        extra_of(extras.drop_first(), key)
    }
}

/// An environment that was installed for a hook.
#[derive(Debug, PartialEq)]
pub struct InstallInfo {
    /// The version of the toolchain.
    pub language_version: Version,
    /// The executable file of the toolchain.
    pub toolchain: PathBuf,
    /// The directory of the environment.
    pub env_path: PathBuf,
    /// What else is known of it.
    pub extras: Vec<Extra>,
}

/// What is known of an environment.
#[verifier::ext_equal]
pub struct InstallInfoView {
    pub language_version: SemVer,
    pub toolchain: PathView,
    pub env_path: PathView,
    pub extras: Seq<(Seq<char>, Seq<char>)>,
}

impl View for InstallInfo {
    type V = InstallInfoView;

    open spec fn view(&self) -> InstallInfoView {
        InstallInfoView {
            language_version: self.language_version@,
            toolchain: self.toolchain@,
            env_path: self.env_path@,
            extras: extra_views(self.extras@),
        }
    }
}

impl InstallInfoView {
    /// The environment with a value for a key, in place of one that it may have had.
    pub open spec fn with_extra(self, key: Seq<char>, value: Seq<char>) -> InstallInfoView {
        InstallInfoView { extras: seq![(key, value)] + self.extras, ..self }
    }
}

/// What is found behind the keys that are passed over.
proof fn lemma_extra_from(extras: Seq<(Seq<char>, Seq<char>)>, key: Seq<char>, i: int)
    requires
        0 <= i <= extras.len(),
        forall|k: int| 0 <= k < i ==> (#[trigger] extras[k]).0 != key,
    ensures
        extra_of(extras, key) == extra_of(extras.skip(i), key),
    decreases i,
{
    if i == 0 {
        assert(extras.skip(0) =~= extras);
    } else {
        let rest = extras.drop_first();
        assert forall|k: int| 0 <= k < i - 1 implies (#[trigger] rest[k]).0 != key by {
            assert(rest[k] == extras[k + 1]);
        }
        assert(extras[0].0 != key);
        lemma_extra_from(rest, key, i - 1);
        assert(rest.skip(i - 1) =~= extras.skip(i));
    }
}

/// A value that was set is found, and no other key is touched by it.
pub proof fn law_extra_is_found_again(
    info: InstallInfoView,
    key: Seq<char>,
    value: Seq<char>,
    other: Seq<char>,
)
    ensures
        extra_of(info.with_extra(key, value).extras, key) == Some(value),
        other != key ==> extra_of(info.with_extra(key, value).extras, other) == extra_of(
            info.extras,
            other,
        ),
{
    let all = info.with_extra(key, value).extras;
    assert(all[0] == (key, value));
    assert(all.drop_first() =~= info.extras);
}

impl InstallInfo {
    /// An environment in the given directory, with nothing else known of it.
    pub fn new(env_path: PathBuf) -> (r: InstallInfo)
        ensures
            r@ == (InstallInfoView {
                language_version: SemVer {
                    major: 0,
                    minor: 0,
                    patch: 0,
                    pre: Seq::empty(),
                    build: Seq::empty(),
                },
                toolchain: PathView { platform: env_path@.platform, bytes: Seq::empty() },
                env_path: env_path@,
                extras: Seq::empty(),
            }),
    {
        let toolchain = PathBuf::from_bytes(env_path.platform, Vec::new());
        let extras: Vec<Extra> = Vec::new();
        proof {
            assert(extra_views(extras@) =~= Seq::empty());
            assert(toolchain@.bytes =~= Seq::empty());
        }
        InstallInfo { language_version: Version::new(0, 0, 0), toolchain, env_path, extras }
    }

    /// Sets the version of the toolchain.
    pub fn with_language_version(&mut self, version: Version)
        ensures
            final(self)@ == (InstallInfoView { language_version: version@, ..old(self)@ }),
    {
        self.language_version = version;
    }

    /// Sets the executable file of the toolchain.
    pub fn with_toolchain(&mut self, toolchain: PathBuf)
        ensures
            final(self)@ == (InstallInfoView { toolchain: toolchain@, ..old(self)@ }),
    {
        self.toolchain = toolchain;
    }

    /// Gives a key its value, in place of one that it may have had.
    pub fn with_extra(&mut self, key: &str, value: &str)
        ensures
            final(self)@ == old(self)@.with_extra(key@, value@),
    {
        let entry = Extra { key: key.to_owned(), value: value.to_owned() };
        let ghost before = self.extras@;
        self.extras.insert(0, entry);
        proof {
            assert(self.extras@ =~= seq![entry] + before);
            assert(extra_views(self.extras@) =~= seq![(key@, value@)] + extra_views(before));
        }
    }

    /// The value of a key.
    pub fn get_extra(&self, key: &str) -> (r: Option<&String>)
        ensures
            match r {
                Some(value) => extra_of(self@.extras, key@) == Some(value@),
                None => extra_of(self@.extras, key@) is None,
            },
    {
        let ghost all = extra_views(self.extras@);
        let mut i: usize = 0;
        while i < self.extras.len()
            invariant
                i <= self.extras@.len(),
                all == extra_views(self.extras@),
                forall|k: int| 0 <= k < i ==> (#[trigger] all[k]).0 != key@,
            decreases self.extras@.len() - i,
        {
            proof {
                assert(all[i as int] == (
                    self.extras@[i as int].key@,
                    self.extras@[i as int].value@,
                ));
            }
            if strings::same(self.extras[i].key.as_str(), key) {
                proof {
                    lemma_extra_from(all, key@, i as int);
                    assert(all.skip(i as int)[0] == all[i as int]);
                }
                return Some(&self.extras[i].value);
            }
            i = i + 1;
        }
        proof {
            lemma_extra_from(all, key@, i as int);
        }
        None
    }
}

} // verus!
