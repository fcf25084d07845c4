//! Shared window chrome: the system font that renders Han characters.

use vstd::prelude::*;

verus! {

/// Number of places where a CJK font is looked for.
pub const CJK_CANDIDATE_COUNT: usize = 7;

/// The places where a CJK font is looked for, in order of preference.
pub open spec fn cjk_candidate_at(i: int) -> Seq<char> {
    if i == 0 {
        "/usr/share/fonts/truetype/SourceHanSansCN-Regular.otf"@
    } else if i == 1 {
        "/usr/share/fonts/truetype/SourceHanSansCN-Normal.otf"@
    } else if i == 2 {
        "/usr/share/fonts/opentype/source-han-sans/SourceHanSansCN-Regular.otf"@
    } else if i == 3 {
        "/usr/share/fonts/noto-cjk/NotoSansCJKsc-Regular.otf"@
    } else if i == 4 {
        "/usr/share/fonts/opentype/noto/NotoSansCJK-Regular.ttc"@
    } else if i == 5 {
        "/usr/share/fonts/truetype/wqy/wqy-microhei.ttc"@
    } else {
        "/usr/share/fonts/truetype/droid/DroidSansFallbackFull.ttf"@
    }
}

/// The `i`-th place where a CJK font is looked for.
pub fn cjk_candidate(i: usize) -> (r: &'static str)
    requires
        i < CJK_CANDIDATE_COUNT,
    ensures
        r@ == cjk_candidate_at(i as int),
{
    match i {
        0 => "/usr/share/fonts/truetype/SourceHanSansCN-Regular.otf",
        1 => "/usr/share/fonts/truetype/SourceHanSansCN-Normal.otf",
        2 => "/usr/share/fonts/opentype/source-han-sans/SourceHanSansCN-Regular.otf",
        3 => "/usr/share/fonts/noto-cjk/NotoSansCJKsc-Regular.otf",
        4 => "/usr/share/fonts/opentype/noto/NotoSansCJK-Regular.ttc",
        5 => "/usr/share/fonts/truetype/wqy/wqy-microhei.ttc",
        _ => "/usr/share/fonts/truetype/droid/DroidSansFallbackFull.ttf",
    }
}

/// The first place, in order of preference, that holds a file, given for
/// each place whether it does (`present[i]` for the `i`-th).
pub fn cjk_font_path(present: &[bool]) -> (r: Option<&'static str>)
    requires
        present@.len() == CJK_CANDIDATE_COUNT,
    ensures
        match r {
            Some(p) => exists|i: int|
                0 <= i < CJK_CANDIDATE_COUNT && present@[i] && p@ == cjk_candidate_at(i) && forall|j: int|
                    0 <= j < i ==> !present@[j],
            None => forall|i: int| 0 <= i < CJK_CANDIDATE_COUNT ==> !present@[i],
        },
{
    let mut i: usize = 0;
    while i < CJK_CANDIDATE_COUNT
        invariant
            present@.len() == CJK_CANDIDATE_COUNT,
            i <= CJK_CANDIDATE_COUNT,
            forall|j: int| 0 <= j < i ==> !present@[j],
        decreases CJK_CANDIDATE_COUNT - i,
    {
        if present[i] {
            let p = cjk_candidate(i);
            assert(present@[i as int] && p@ == cjk_candidate_at(i as int));
            return Some(p);
        }
        i = i + 1;
    }
    None
}

} // verus!
