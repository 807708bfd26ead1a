//! Where and how a graph is written out.

use vstd::prelude::*;

use crate::dump::{dot_path, is_white_space, picture_argument, trimmed, GraphDumpFormat};
use crate::dump::DOT_FLAGS_VERBOSE;

verus! {

/// What is left of a text between `a` and `b` when the white space at its ends is taken off: all of
/// that lies before `a` and from `b` on, and none of it at the ends of what is left.
pub open spec fn trims_to(s: Seq<char>, a: int, b: int) -> bool {
    &&& 0 <= a <= b <= s.len()
    &&& forall|i: int| 0 <= i < a || b <= i < s.len() ==> is_white_space(#[trigger] s[i])
    &&& a < b ==> !is_white_space(s[a]) && !is_white_space(s[b - 1])
}

proof fn lemma_trimmed(s: Seq<char>) -> (ends: (int, int))
    ensures
        trims_to(s, ends.0, ends.1),
        trimmed(s) == s.subrange(ends.0, ends.1),
    decreases s.len(),
{
    if s.len() > 0 && is_white_space(s.first()) {
        let (a, b): (int, int) = lemma_trimmed(s.skip(1));
        assert(s.subrange(a + 1, b + 1) =~= s.skip(1).subrange(a, b));
        assert forall|i: int| 0 <= i < a + 1 || b + 1 <= i < s.len() implies is_white_space(
            #[trigger] s[i],
        ) by {
            if i > 0 {
                assert(s[i] == s.skip(1)[i - 1]);
            }
        }
        if a < b {
            assert(s.skip(1)[a] == s[a + 1] && s.skip(1)[b - 1] == s[b]);
        }
        (a + 1, b + 1)
    } else if s.len() > 0 && is_white_space(s.last()) {
        let (a, b): (int, int) = lemma_trimmed(s.drop_last());
        assert(s.subrange(a, b) =~= s.drop_last().subrange(a, b));
        assert forall|i: int| 0 <= i < a || b <= i < s.len() implies is_white_space(
            #[trigger] s[i],
        ) by {
            if i < s.len() - 1 {
                assert(s[i] == s.drop_last()[i]);
            }
        }
        (a, b)
    } else {
        assert(s.subrange(0, s.len() as int) =~= s);
        (0, s.len() as int)
    }
}

/// A graph that is written out as text goes to the file asked for, whose name is taken without
/// the white space at its ends.
pub proof fn law_text_goes_to_the_file_asked_for(out: Seq<char>)
    ensures
        exists|a: int, b: int| #[trigger]
            trims_to(out, a, b) && dot_path(out, GraphDumpFormat::Dot) == out.subrange(a, b),
        (out.len() == 0 || !is_white_space(out.first()) && !is_white_space(out.last()))
            ==> dot_path(out, GraphDumpFormat::Dot) == out,
{
    let (a, b): (int, int) = lemma_trimmed(out);
    assert(trims_to(out, a, b) && dot_path(out, GraphDumpFormat::Dot) == out.subrange(a, b));
}

/// For a picture the graph is written as text beside the file asked for, to one whose name is
/// longer by `.dot`, and `dot` is told to draw the picture of the kind asked for. As text it is not
/// drawn.
pub proof fn law_pictures_are_drawn_from_text(out: Seq<char>, format: GraphDumpFormat)
    ensures
        !(format is Dot) ==> dot_path(out, format) == out + seq!['.', 'd', 'o', 't'],
        format is Dot <==> picture_argument(format) is None,
        format is Png ==> picture_argument(format) is Some && picture_argument(format)->0@ == seq![
            '-',
            'T',
            'p',
            'n',
            'g',
        ],
        format is Svg ==> picture_argument(format) is Some && picture_argument(format)->0@ == seq![
            '-',
            'T',
            's',
            'v',
            'g',
        ],
        DOT_FLAGS_VERBOSE == 1,
{
    reveal_strlit(".dot");
    reveal_strlit("-Tpng");
    reveal_strlit("-Tsvg");
    assert(".dot"@ =~= seq!['.', 'd', 'o', 't']);
    assert("-Tpng"@ =~= seq!['-', 'T', 'p', 'n', 'g']);
    assert("-Tsvg"@ =~= seq!['-', 'T', 's', 'v', 'g']);
}

} // verus!
