//! Paths as texts.
use vstd::prelude::*;

use crate::text;
use crate::text::{concat2, without_prefix};

verus! {

/// A path with the home directory in place of a leading `~`. A tilde that no
/// slash follows is not a leading one unless it stands alone, and without a home
/// directory the path stays as it is.
pub open spec fn expanded(path: Seq<char>, home: Option<Seq<char>>) -> Seq<char> {
    match home {
        Some(home) => if path == "~"@ {
            home
        } else if text::starts_with(path, "~/"@) {
            home + path.skip(1)
        } else {
            path
        },
        None => path,
    }
}

/// A text given as an optional reference.
pub open spec fn opt_str(text: Option<&str>) -> Option<Seq<char>> {
    match text {
        Some(text) => Some(text@),
        None => None,
    }
}

/// Puts the home directory in place of a leading `~`.
pub fn expand_tilde(path: &str, home: Option<&str>) -> (r: String)
    ensures
        r@ == expanded(path@, opt_str(home)),
{
    let home = match home {
        Some(home) => home,
        None => return path.to_owned(),
    };
    if text::same(path, "~") {
        return home.to_owned();
    }
    match without_prefix(path, "~/") {
        Some(rest) => {
            proof {
                reveal_strlit("~/");
                reveal_strlit("/");
                let p = path@;
                assert(p.take(2) == "~/"@);
                assert(p[1] == p.take(2)[1]);
                assert("/"@ =~= seq!['/']);
                assert(p.skip(1) =~= "/"@ + p.skip(2));
            }
            let below = concat2("/", rest.as_str());
            concat2(home, below.as_str())
        },
        None => path.to_owned(),
    }
}

/// Expanding again changes nothing, unless the home directory itself begins with
/// a tilde.
pub proof fn law_expansion_is_final(path: Seq<char>, home: Seq<char>)
    requires
        home.len() > 0,
        home[0] != '~',
    ensures
        expanded(expanded(path, Some(home)), Some(home)) == expanded(path, Some(home)),
{
    reveal_strlit("~");
    reveal_strlit("~/");
    let once = expanded(path, Some(home));
    if once == "~"@ {
        assert(once[0] == '~');
        if path == "~"@ || text::starts_with(path, "~/"@) {
            assert(once[0] == home[0]);
        }
    }
    if text::starts_with(once, "~/"@) {
        assert(once.take(2)[0] == once[0]);
        if path == "~"@ || text::starts_with(path, "~/"@) {
            assert(once[0] == home[0]);
        }
    }
}

/// A tilde stands for the home directory alone or before a slash, and nowhere else.
pub proof fn law_only_a_leading_tilde_stands_for_home(rest: Seq<char>, home: Seq<char>, c: char)
    ensures
        expanded(seq!['~'], Some(home)) == home,
        expanded(seq!['~', '/'] + rest, Some(home)) == home + seq!['/'] + rest,
        c != '/' ==> expanded(seq!['~', c] + rest, Some(home)) == seq!['~', c] + rest,
        c != '~' ==> expanded(seq![c] + rest, Some(home)) == seq![c] + rest,
        expanded(Seq::empty(), Some(home)) == Seq::<char>::empty(),
        expanded(rest, None) == rest,
{
    reveal_strlit("~");
    reveal_strlit("~/");
    assert("~"@ =~= seq!['~']);
    assert("~/"@ =~= seq!['~', '/']);
    let slashed = seq!['~', '/'] + rest;
    assert(slashed.take(2) =~= seq!['~', '/']);
    assert(slashed.len() != "~"@.len());
    assert(home + slashed.skip(1) =~= home + seq!['/'] + rest);
    let other = seq!['~', c] + rest;
    assert(other.len() != "~"@.len());
    assert(other.take(2)[1] == c);
    let plain = seq![c] + rest;
    assert(plain[0] == c);
    if plain.len() >= 2 {
        assert(plain.take(2)[0] == c);
    }
}

} // verus!
