//! Navigation hints, which degrade stepwise instead of being clipped.
use vstd::prelude::*;
use vstd::string::*;

use crate::text::same_text;

verus! {

/// The hint of a picker.
pub const HINT_USE: &'static str = "↑↓ Navigate     Enter Use     Esc Close";

/// The hint of the multi-select.
pub const HINT_SCOPED: &'static str =
    "↑↓ Navigate     Space Toggle     Ctrl+X Reset     Enter Done     Esc Close";

/// The forms of [`HINT_USE`], the widest first.
pub open spec fn variants() -> Seq<Seq<char>> {
    seq![
        HINT_USE@,
        "↑↓ Navigate  Enter Use  Esc Close"@,
        "Enter Use  Esc Close"@,
        "↑↓ Move  Enter  Esc"@,
        "Enter Esc"@,
    ]
}

/// Whether a hint is the widest form that fits, or, where none fits, the shortest one.
pub open spec fn widest_fitting(picked: Seq<char>, width: nat) -> bool {
    if exists|k: int| 0 <= k < variants().len() && (#[trigger] variants()[k]).len() <= width {
        &&& variants().contains(picked)
        &&& picked.len() <= width
        &&& forall|k: int|
            0 <= k < variants().len() && (#[trigger] variants()[k]).len() <= width
                ==> variants()[k].len() <= picked.len()
    } else {
        picked == variants().last()
    }
}

proof fn lemma_variants()
    ensures
        variants().len() == 5,
        variants()[0] == HINT_USE@ && HINT_USE@.len() == 39,
        variants()[1] == "↑↓ Navigate  Enter Use  Esc Close"@,
        variants()[1].len() == 33,
        variants()[2] == "Enter Use  Esc Close"@,
        variants()[2].len() == 20,
        variants()[3] == "↑↓ Move  Enter  Esc"@,
        variants()[3].len() == 19,
        variants()[4] == "Enter Esc"@,
        variants()[4].len() == 9,
{
    reveal_strlit("↑↓ Navigate     Enter Use     Esc Close");
    reveal_strlit("↑↓ Navigate  Enter Use  Esc Close");
    reveal_strlit("Enter Use  Esc Close");
    reveal_strlit("↑↓ Move  Enter  Esc");
    reveal_strlit("Enter Esc");
}

/// Picks the widest variant of a hint that fits. A hint without variants stays as it is.
pub fn degrade_hint(hint: &'static str, width: usize) -> (picked: &'static str)
    ensures
        hint@ == HINT_USE@ ==> widest_fitting(picked@, width as nat),
        hint@ != HINT_USE@ ==> picked == hint,
{
    if !same_text(hint, HINT_USE) {
        return hint;
    }
    proof {
        lemma_variants();
    }
    if 39 <= width {
        assert(variants()[0].len() <= width);
        HINT_USE
    } else if 33 <= width {
        assert(variants()[1].len() <= width);
        "↑↓ Navigate  Enter Use  Esc Close"
    } else if 20 <= width {
        assert(variants()[2].len() <= width);
        "Enter Use  Esc Close"
    } else if 19 <= width {
        assert(variants()[3].len() <= width);
        "↑↓ Move  Enter  Esc"
    } else {
        if 9 <= width {
            assert(variants()[4].len() <= width);
        }
        "Enter Esc"
    }
}

/// A wider row never shortens the hint, and a row that has room for the shortest form is never
/// overrun.
pub proof fn law_hints_widen(narrow: Seq<char>, wide: Seq<char>, width: nat, more: nat)
    requires
        widest_fitting(narrow, width),
        widest_fitting(wide, width + more),
    ensures
        narrow.len() <= wide.len(),
        width >= 9 ==> narrow.len() <= width,
{
    lemma_variants();
    if exists|k: int| 0 <= k < variants().len() && (#[trigger] variants()[k]).len() <= width {
        let at = variants().index_of(narrow);
        assert(variants()[at] == narrow);
        assert(variants()[at].len() <= width + more);
    } else {
        assert(variants()[4] == variants().last());
        assert(forall|k: int|
            0 <= k < variants().len() ==> variants()[4].len() <= (#[trigger] variants()[k]).len());
        if exists|k: int|
            0 <= k < variants().len() && (#[trigger] variants()[k]).len() <= width + more {
            let at = variants().index_of(wide);
            assert(variants()[at] == wide);
        }
    }
    if width >= 9 {
        assert(variants()[4].len() <= width);
    }
}

/// The hint of a row is one of its five forms. It fits wherever one of them does, and none that
/// fits is wider.
pub proof fn law_hint_is_the_widest_that_fits(picked: Seq<char>, width: nat, form: Seq<char>)
    requires
        widest_fitting(picked, width),
        ({
            ||| form == "↑↓ Navigate     Enter Use     Esc Close"@
            ||| form == "↑↓ Navigate  Enter Use  Esc Close"@
            ||| form == "Enter Use  Esc Close"@
            ||| form == "↑↓ Move  Enter  Esc"@
            ||| form == "Enter Esc"@
        }),
    ensures
        form.len() <= width ==> picked.len() <= width && form.len() <= picked.len(),
        width < 9 ==> picked == "Enter Esc"@,
        ({
            ||| picked == "↑↓ Navigate     Enter Use     Esc Close"@
            ||| picked == "↑↓ Navigate  Enter Use  Esc Close"@
            ||| picked == "Enter Use  Esc Close"@
            ||| picked == "↑↓ Move  Enter  Esc"@
            ||| picked == "Enter Esc"@
        }),
{
    lemma_variants();
    let at: int = if form == variants()[0] {
        0
    } else if form == variants()[1] {
        1
    } else if form == variants()[2] {
        2
    } else if form == variants()[3] {
        3
    } else {
        4
    };
    assert(variants()[at] == form);
    if exists|k: int| 0 <= k < variants().len() && (#[trigger] variants()[k]).len() <= width {
        let place = variants().index_of(picked);
        assert(variants()[place] == picked);
    } else {
        assert(variants()[4] == variants().last());
    }
}

/// The hints name the keys of their surfaces.
pub proof fn law_hints_name_their_keys()
    ensures
        HINT_USE@ == "↑↓ Navigate     Enter Use     Esc Close"@,
        HINT_SCOPED@
            == "↑↓ Navigate     Space Toggle     Ctrl+X Reset     Enter Done     Esc Close"@,
{
}

} // verus!
