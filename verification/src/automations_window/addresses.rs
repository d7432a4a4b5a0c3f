//! Who publishes state: the user's own scripts, the platform, or a package.

use vstd::prelude::*;

use crate::text::{self, is_empty_text, join2, join3, same_text, trim};
use crate::words::{self, folded, same_folded, split_at, strip_prefix};

verus! {

/// A platform producer: a protocol of the game.
#[derive(Clone, Copy, Debug, PartialEq, Eq, Structural)]
pub enum Platform {
    Gmcp,
    Msdp,
    Mssp,
}

/// The name of a platform producer.
pub open spec fn platform_name(platform: Platform) -> Seq<char> {
    match platform {
        Platform::Gmcp => "gmcp"@,
        Platform::Msdp => "msdp"@,
        Platform::Mssp => "mssp"@,
    }
}

/// A producer of state.
pub enum ProducerKey<T = String> {
    User,
    Platform(Platform),
    /// A package, by the name of its owner and its own.
    Package { owner: T, name: T },
}

/// A producer over sequences.
pub type KeyView = ProducerKey<Seq<char>>;

impl View for ProducerKey<String> {
    type V = KeyView;

    open spec fn view(&self) -> KeyView {
        match *self {
            ProducerKey::User => ProducerKey::User,
            ProducerKey::Platform(platform) => ProducerKey::Platform(platform),
            ProducerKey::Package { owner, name } => ProducerKey::Package {
                owner: owner@,
                name: name@,
            },
        }
    }
}

/// The view of an optional producer.
pub open spec fn opt_key(key: Option<ProducerKey>) -> Option<KeyView> {
    match key {
        Some(key) => Some(key@),
        None => None,
    }
}

/// The package at `owner/name`.
pub open spec fn package_of(coordinates: Seq<char>) -> Option<KeyView> {
    let pieces = words::split(coordinates, '/');
    if pieces.len() == 2 && pieces[0].len() > 0 && pieces[1].len() > 0 {
        Some(ProducerKey::Package { owner: pieces[0], name: pieces[1] })
    } else {
        None
    }
}

/// The producer at an address without ASCII capitals: `user`, the name of a
/// platform producer, or `owner/name` with or without `smudgy://` before it.
pub open spec fn key_of(address: Seq<char>) -> Option<KeyView> {
    if address == "user"@ {
        Some(ProducerKey::User)
    } else if address == "gmcp"@ {
        Some(ProducerKey::Platform(Platform::Gmcp))
    } else if address == "msdp"@ {
        Some(ProducerKey::Platform(Platform::Msdp))
    } else if address == "mssp"@ {
        Some(ProducerKey::Platform(Platform::Mssp))
    } else {
        match words::after_prefix(address, "smudgy://"@) {
            Some(coordinates) => package_of(coordinates),
            None => package_of(address),
        }
    }
}

/// The producer at an address, without regard to ASCII case.
pub open spec fn producer_at(address: Seq<char>) -> Option<KeyView> {
    key_of(words::fold(address))
}

/// The address of a producer.
pub open spec fn address_of(key: KeyView) -> Seq<char> {
    match key {
        ProducerKey::User => "user"@,
        ProducerKey::Platform(platform) => platform_name(platform),
        ProducerKey::Package { owner, name } => "smudgy://"@ + owner + "/"@ + name,
    }
}

/// The package at `owner/name`.
fn parse_package(coordinates: &str) -> (key: Option<ProducerKey>)
    ensures
        opt_key(key) == package_of(coordinates@),
{
    let mut pieces = split_at(coordinates, '/');
    let ghost given = words::split(coordinates@, '/');
    assert(pieces.len() == given.len());
    if pieces.len() != 2 {
        return None;
    }
    assert(given[0] == pieces@[0]@ && given[1] == pieces@[1]@);
    if is_empty_text(&pieces[0]) || is_empty_text(&pieces[1]) {
        return None;
    }
    let owner = pieces.remove(0);
    let name = pieces.remove(0);
    Some(ProducerKey::Package { owner, name })
}

impl ProducerKey<String> {
    /// The producer at an address.
    pub fn parse(address: &str) -> (key: Option<ProducerKey>)
        ensures
            opt_key(key) == producer_at(address@),
    {
        let address = folded(address);
        if same_text(&address, "user") {
            Some(ProducerKey::User)
        } else if same_text(&address, "gmcp") {
            Some(ProducerKey::Platform(Platform::Gmcp))
        } else if same_text(&address, "msdp") {
            Some(ProducerKey::Platform(Platform::Msdp))
        } else if same_text(&address, "mssp") {
            Some(ProducerKey::Platform(Platform::Mssp))
        } else {
            match strip_prefix(&address, "smudgy://") {
                Some(coordinates) => parse_package(&coordinates),
                None => parse_package(&address),
            }
        }
    }

    /// The address of the producer.
    pub fn address(&self) -> (address: String)
        ensures
            address@ == address_of(self@),
    {
        match self {
            ProducerKey::User => String::from_str("user"),
            ProducerKey::Platform(Platform::Gmcp) => String::from_str("gmcp"),
            ProducerKey::Platform(Platform::Msdp) => String::from_str("msdp"),
            ProducerKey::Platform(Platform::Mssp) => String::from_str("mssp"),
            ProducerKey::Package { owner, name } => {
                let start = join3("smudgy://", owner, "/");
                join2(&start, name)
            },
        }
    }
}

/// Whether two producers are the same.
fn same_key(a: &ProducerKey, b: &ProducerKey) -> (same: bool)
    ensures
        same == (a@ == b@),
{
    match (a, b) {
        (ProducerKey::User, ProducerKey::User) => true,
        (ProducerKey::Platform(a), ProducerKey::Platform(b)) => *a == *b,
        (
            ProducerKey::Package { owner: owner_a, name: name_a },
            ProducerKey::Package { owner: owner_b, name: name_b },
        ) => same_text(owner_a, owner_b) && same_text(name_a, name_b),
        _ => false,
    }
}

/// Whether two addresses are of the same producer: where both are addresses, they
/// lead to the same one; else they are the same text, without regard to case.
pub open spec fn same_producer(a: Seq<char>, b: Seq<char>) -> bool {
    match (producer_at(a), producer_at(b)) {
        (Some(a), Some(b)) => a == b,
        _ => words::same_fold(text::trimmed(a), text::trimmed(b)),
    }
}

/// Whether two addresses are of the same producer.
pub fn producers_equal(a: &str, b: &str) -> (same: bool)
    ensures
        same == same_producer(a@, b@),
{
    match (ProducerKey::parse(a), ProducerKey::parse(b)) {
        (Some(a), Some(b)) => same_key(&a, &b),
        _ => {
            let a = trim(a);
            let b = trim(b);
            same_folded(&a, &b)
        },
    }
}

/// Whether state of a producer is found under handles. That of a platform producer
/// is not.
pub open spec fn has_handles(producer: Seq<char>) -> bool {
    !(producer_at(producer) matches Some(ProducerKey::Platform(_)))
}

/// Whether state of a producer is found under handles.
pub fn takes_handle(producer: &str) -> (takes: bool)
    ensures
        takes == has_handles(producer@),
{
    match ProducerKey::parse(producer) {
        Some(ProducerKey::Platform(_)) => false,
        _ => true,
    }
}

/// How a producer is named: a package by its name, with its address beside it;
/// another by its address.
pub open spec fn display_of(producer: Seq<char>) -> (Seq<char>, Option<Seq<char>>) {
    match producer_at(producer) {
        Some(key) => match key {
            ProducerKey::Package { name, .. } => (name, Some(address_of(key))),
            _ => (address_of(key), None),
        },
        None => (producer, None),
    }
}

/// How a producer is named, and the address that goes with an abbreviation.
pub fn producer_display(producer: &str) -> (display: (String, Option<String>))
    ensures
        (display.0@, text::opt_text(display.1)) == display_of(producer@),
{
    match ProducerKey::parse(producer) {
        Some(key) => {
            let address = key.address();
            match key {
                ProducerKey::Package { name, .. } => (name, Some(address)),
                _ => (address, None),
            }
        },
        None => (producer.to_owned(), None),
    }
}

/// The place of a producer in a list: the user's own first, then the platform, then
/// packages, then what is no address; each group by address.
pub open spec fn rank_of(producer: Seq<char>) -> (u8, Seq<char>) {
    match producer_at(producer) {
        Some(key) => match key {
            ProducerKey::User => (0, Seq::empty()),
            ProducerKey::Platform(platform) => (1, platform_name(platform)),
            ProducerKey::Package { .. } => (2, address_of(key)),
        },
        None => (3, producer),
    }
}

/// The place of a producer in a list.
pub fn producer_rank(producer: &str) -> (rank: (u8, String))
    ensures
        (rank.0, rank.1@) == rank_of(producer@),
{
    match ProducerKey::parse(producer) {
        Some(key) => {
            let address = key.address();
            match key {
                ProducerKey::User => (0, String::new()),
                ProducerKey::Platform(_) => (1, address),
                ProducerKey::Package { .. } => (2, address),
            }
        },
        None => (3, producer.to_owned()),
    }
}

/// Whether one producer is listed before another.
pub open spec fn ranked_before(a: Seq<char>, b: Seq<char>) -> bool {
    let (group_a, address_a) = rank_of(a);
    let (group_b, address_b) = rank_of(b);
    group_a < group_b || (group_a == group_b && text::text_less(address_a, address_b))
}

/// Every address leads to the producer it is the address of.
///
/// The names of a package have no ASCII capitals and no `/`, and are not empty.
pub proof fn law_an_address_leads_back(key: KeyView)
    requires
        key matches ProducerKey::Package { owner, name } ==> {
            &&& owner.len() > 0 && name.len() > 0
            &&& words::fold(owner) == owner && words::fold(name) == name
            &&& !owner.contains('/') && !name.contains('/')
        },
    ensures
        producer_at(address_of(key)) == Some(key),
{
    reveal_strlit("user");
    reveal_strlit("gmcp");
    reveal_strlit("msdp");
    reveal_strlit("mssp");
    reveal_strlit("smudgy://");
    reveal_strlit("/");
    match key {
        ProducerKey::User => {
            assert(words::fold("user"@) =~= "user"@);
        },
        ProducerKey::Platform(Platform::Gmcp) => {
            assert(words::fold("gmcp"@) =~= "gmcp"@);
            assert("gmcp"@[0] != "user"@[0]);
        },
        ProducerKey::Platform(Platform::Msdp) => {
            assert(words::fold("msdp"@) =~= "msdp"@);
            assert("msdp"@[0] != "user"@[0]);
            assert("msdp"@[0] != "gmcp"@[0]);
        },
        ProducerKey::Platform(Platform::Mssp) => {
            assert(words::fold("mssp"@) =~= "mssp"@);
            assert("mssp"@[0] != "user"@[0]);
            assert("mssp"@[0] != "gmcp"@[0]);
            assert("mssp"@[2] != "msdp"@[2]);
        },
        ProducerKey::Package { owner, name } => {
            let coordinates = owner + "/"@ + name;
            let address = address_of(key);
            assert(address =~= "smudgy://"@ + coordinates);
            assert(words::fold(address) =~= "smudgy://"@ + words::fold(owner) + "/"@ + words::fold(
                name,
            ));
            assert(words::fold(address) == address);
            assert(address[0] == 's');
            assert("user"@[0] != 's' && "gmcp"@[0] != 's' && "msdp"@[0] != 's' && "mssp"@[0]
                != 's');
            assert(address.take(9) =~= "smudgy://"@);
            assert(address.skip(9) =~= coordinates);
            lemma_split_once(owner, name);
        },
    }
}

/// A text without the mark is one piece.
proof fn lemma_no_mark(text: Seq<char>)
    requires
        !text.contains('/'),
    ensures
        words::split(text, '/') == seq![text],
    decreases text.len(),
{
    if text.len() > 0 {
        let rest = text.drop_last();
        assert(!rest.contains('/')) by {
            if rest.contains('/') {
                let k = choose|k: int| 0 <= k < rest.len() && rest[k] == '/';
                assert(text[k] == '/');
            }
        }
        lemma_no_mark(rest);
        assert(text.last() != '/') by {
            assert(text[text.len() - 1] == text.last());
        }
        assert(seq![rest].drop_last() =~= Seq::empty());
        assert(rest.push(text.last()) =~= text);
        assert(words::split(text, '/') =~= seq![text]);
    } else {
        assert(text =~= Seq::empty());
    }
}

/// A text with one mark is two pieces.
proof fn lemma_split_once(first: Seq<char>, second: Seq<char>)
    requires
        !first.contains('/'),
        !second.contains('/'),
    ensures
        words::split(first + "/"@ + second, '/') == seq![first, second],
    decreases second.len(),
{
    reveal_strlit("/");
    let whole = first + "/"@ + second;
    if second.len() == 0 {
        assert(whole.drop_last() =~= first);
        lemma_no_mark(first);
        assert(second =~= Seq::empty());
        assert(seq![first].push(Seq::empty()) =~= seq![first, second]);
    } else {
        let rest = second.drop_last();
        assert(!rest.contains('/')) by {
            if rest.contains('/') {
                let k = choose|k: int| 0 <= k < rest.len() && rest[k] == '/';
                assert(second[k] == '/');
            }
        }
        lemma_split_once(first, rest);
        assert(whole.drop_last() =~= first + "/"@ + rest);
        assert(whole.last() == second.last());
        assert(second[second.len() - 1] != '/');
        assert(seq![first, rest].drop_last() =~= seq![first]);
        assert(rest.push(second.last()) =~= second);
        assert(words::split(whole, '/') =~= seq![first, second]);
    }
}

/// An address in another case is of the same producer.
pub proof fn law_case_does_not_tell_producers_apart(a: Seq<char>, b: Seq<char>)
    requires
        words::same_fold(a, b),
    ensures
        producer_at(a) == producer_at(b),
        producer_at(a) is Some ==> same_producer(a, b),
{
}

} // verus!
