//! The text a path visualiser reads.
use vstd::prelude::*;

use crate::pos::BlockPos;
use crate::text;
use crate::text::push_signed;
use crate::types::{MoveKind, Path, PathNode};

verus! {

/// The most characters of a name that are kept.
pub const MAX_NAME_CHARS: usize = 64;

/// Whether a character may stand in a file name.
pub open spec fn is_name_char(c: char) -> bool {
    ('0' <= c <= '9') || ('A' <= c <= 'Z') || ('a' <= c <= 'z') || c == '_' || c == '-'
}

/// A name with every other character replaced, cut to its limit.
pub open spec fn sanitized(name: Seq<char>) -> Seq<char> {
    Seq::new(
        if name.len() < MAX_NAME_CHARS {
            name.len()
        } else {
            MAX_NAME_CHARS as nat
        },
        |i: int|
            if is_name_char(name[i]) {
                name[i]
            } else {
                '_'
            },
    )
}

/// A name that is safe in a file name; the empty name has none.
pub fn sanitize_profile_name(profile_name: &str) -> (safe: Option<String>)
    ensures
        match safe {
            Some(name) => profile_name@.len() > 0 && name@ == sanitized(profile_name@),
            None => profile_name@.len() == 0,
        },
{
    let length: usize = profile_name.unicode_len();
    if length == 0 {
        return None;
    }
    let kept: usize = if length < MAX_NAME_CHARS {
        length
    } else {
        MAX_NAME_CHARS
    };
    let mut safe = String::new();
    let mut i: usize = 0;
    while i < kept
        invariant
            i <= kept <= length,
            length == profile_name@.len(),
            kept == sanitized(profile_name@).len(),
            safe@ == sanitized(profile_name@).take(i as int),
        decreases kept - i,
    {
        let c = profile_name.get_char(i);
        let allowed: bool = ('0' <= c && c <= '9') || ('A' <= c && c <= 'Z') || ('a' <= c && c
            <= 'z') || c == '_' || c == '-';
        if allowed {
            safe.append(profile_name.substring_char(i, i + 1));
            assert(profile_name@.subrange(i as int, i + 1) =~= seq![c]);
        } else {
            safe.append("_");
            proof {
                reveal_strlit("_");
            }
            assert("_"@ =~= seq!['_']);
        }
        assert(sanitized(profile_name@).take(i + 1) =~= sanitized(profile_name@).take(i as int)
            + seq![sanitized(profile_name@)[i as int]]);
        i += 1;
    }
    assert(sanitized(profile_name@).take(kept as int) =~= sanitized(profile_name@));
    Some(safe)
}

/// A safe name can leave no directory: it has no separator and no dot.
pub proof fn safe_names_stay_in_their_directory(name: Seq<char>, i: int)
    requires
        0 <= i < sanitized(name).len(),
    ensures
        is_name_char(sanitized(name)[i]),
        sanitized(name)[i] != '/' && sanitized(name)[i] != '\\' && sanitized(name)[i] != '.',
        sanitized(name).len() <= MAX_NAME_CHARS,
{
}

/// The word for a kind of move.
pub open spec fn kind_word(kind: MoveKind) -> Seq<char> {
    match kind {
        MoveKind::Start => "start"@,
        MoveKind::Walk => "walk"@,
        MoveKind::Jump => "jump"@,
        MoveKind::Parkour { .. } => "parkour"@,
        MoveKind::Climb => "climb"@,
        MoveKind::Fall => "fall"@,
        MoveKind::Swim => "swim"@,
        MoveKind::Aotv => "warp"@,
        MoveKind::Etherwarp => "warp"@,
    }
}

pub fn kind_name(kind: MoveKind) -> (word: &'static str)
    ensures
        word@ == kind_word(kind),
{
    match kind {
        MoveKind::Start => "start",
        MoveKind::Walk => "walk",
        MoveKind::Jump => "jump",
        MoveKind::Parkour { .. } => "parkour",
        MoveKind::Climb => "climb",
        MoveKind::Fall => "fall",
        MoveKind::Swim => "swim",
        MoveKind::Aotv | MoveKind::Etherwarp => "warp",
    }
}

/// Three coordinates with spaces between them.
pub open spec fn place_text(pos: BlockPos) -> Seq<char> {
    text::signed_decimal(pos.x as int) + " "@ + text::signed_decimal(pos.y as int) + " "@
        + text::signed_decimal(pos.z as int)
}

/// One line of a listed path.
pub open spec fn node_line(node: PathNode) -> Seq<char> {
    place_text(node.pos) + " "@ + kind_word(node.reached_by) + "\n"@
}

pub open spec fn node_lines(nodes: Seq<PathNode>) -> Seq<char>
    decreases nodes.len(),
{
    if nodes.len() == 0 {
        Seq::empty()
    } else {
        node_lines(nodes.drop_last()) + node_line(nodes.last())
    }
}

fn push_place(out: &mut String, pos: BlockPos)
    ensures
        final(out)@ == old(out)@ + place_text(pos),
{
    push_signed(out, pos.x as i64);
    out.append(" ");
    push_signed(out, pos.y as i64);
    out.append(" ");
    push_signed(out, pos.z as i64);
    assert(out@ =~= old(out)@ + place_text(pos));
}

/// Writes down a planned path: a name, the goal, and one line for each node
/// with its move kind.
pub fn path_listing(safe_name: &str, goal: BlockPos, path: &Path) -> (out: String)
    ensures
        out@ == safe_name@ + "\n"@ + place_text(goal) + "\n"@ + node_lines(path.nodes@),
{
    let mut out = safe_name.to_owned();
    out.append("\n");
    push_place(&mut out, goal);
    out.append("\n");
    let ghost head = out@;
    let mut i: usize = 0;
    assert(path.nodes@.take(0) =~= Seq::empty());
    while i < path.nodes.len()
        invariant
            i <= path.nodes@.len(),
            out@ == head + node_lines(path.nodes@.take(i as int)),
        decreases path.nodes@.len() - i,
    {
        let node = path.nodes[i];
        let ghost before = out@;
        push_place(&mut out, node.pos);
        out.append(" ");
        out.append(kind_name(node.reached_by));
        out.append("\n");
        proof {
            assert(out@ =~= before + node_line(node));
            assert(path.nodes@.take(i + 1).drop_last() =~= path.nodes@.take(i as int));
            assert(out@ =~= head + node_lines(path.nodes@.take(i + 1)));
        }
        i += 1;
    }
    assert(path.nodes@.take(path.nodes@.len() as int) =~= path.nodes@);
    out
}

/// The name of the file a path is listed in.
pub fn listing_file_name(safe_name: &str) -> (name: String)
    ensures
        name@ == "bot-"@ + safe_name@ + ".path"@,
{
    let mut name = "bot-".to_owned();
    name.append(safe_name);
    name.append(".path");
    name
}

/// Every way of moving has a word of its own, but for the two teleports, which
/// share one.
pub proof fn moves_have_their_own_words(a: MoveKind, b: MoveKind)
    ensures
        kind_word(a) == kind_word(b) <==> {
            ||| a is Start && b is Start
            ||| a is Walk && b is Walk
            ||| a is Jump && b is Jump
            ||| a is Parkour && b is Parkour
            ||| a is Climb && b is Climb
            ||| a is Fall && b is Fall
            ||| a is Swim && b is Swim
            ||| (a is Aotv || a is Etherwarp) && (b is Aotv || b is Etherwarp)
        },
{
    reveal_strlit("start");
    reveal_strlit("walk");
    reveal_strlit("jump");
    reveal_strlit("parkour");
    reveal_strlit("climb");
    reveal_strlit("fall");
    reveal_strlit("swim");
    reveal_strlit("warp");
    assert("start"@.len() == 5 && "start"@[0] == 's' && "start"@[2] == 'a');
    assert("walk"@.len() == 4 && "walk"@[0] == 'w' && "walk"@[2] == 'l');
    assert("jump"@.len() == 4 && "jump"@[0] == 'j' && "jump"@[2] == 'm');
    assert("parkour"@.len() == 7 && "parkour"@[0] == 'p' && "parkour"@[2] == 'r');
    assert("climb"@.len() == 5 && "climb"@[0] == 'c' && "climb"@[2] == 'i');
    assert("fall"@.len() == 4 && "fall"@[0] == 'f' && "fall"@[2] == 'l');
    assert("swim"@.len() == 4 && "swim"@[0] == 's' && "swim"@[2] == 'i');
    assert("warp"@.len() == 4 && "warp"@[0] == 'w' && "warp"@[2] == 'r');
    let (x, y) = (kind_word(a), kind_word(b));
    if x == y {
        assert(x.len() == y.len() && x[0] == y[0] && x[2] == y[2]);
    }
}

} // verus!
