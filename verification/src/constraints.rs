//! Shared helpers for constraint implementations.
use vstd::prelude::*;
use vstd::string::StringExecFns;

verus! {

/// The text of a bulleted list item: two spaces, a dash and a space, then
/// the item.
pub open spec fn bullet(item: Seq<char>) -> Seq<char> {
    seq![' ', ' ', '-', ' '] + item
}

/// The items as a bulleted, newline-separated list (no newline after the
/// last item; the empty list is the empty text).
pub open spec fn bullet_lines(items: Seq<Seq<char>>) -> Seq<char>
    decreases items.len(),
{
    if items.len() == 0 {
        Seq::empty()
    } else if items.len() == 1 {
        bullet(items[0])
    } else {
        bullet_lines(items.drop_last()) + seq!['\n'] + bullet(items.last())
    }
}

/// The texts of strings.
pub open spec fn texts(items: Seq<String>) -> Seq<Seq<char>> {
    items.map_values(|s: String| s@)
}

/// Format items as a bulleted, newline-separated list.
pub fn bullet_list(items: &[String]) -> (list: String)
    ensures
        list@ == bullet_lines(texts(items@)),
{
    let mut list = String::new();
    let mut i: usize = 0;
    proof {
        reveal_strlit("\n");
        reveal_strlit("  - ");
    }
    while i < items.len()
        invariant
            i <= items@.len(),
            list@ == bullet_lines(texts(items@.take(i as int))),
            "\n"@ == seq!['\n'],
            "  - "@ == seq![' ', ' ', '-', ' '],
        decreases items@.len() - i,
    {
        proof {
            assert(texts(items@.take(i as int + 1)).drop_last() =~= texts(items@.take(i as int)));
            assert(texts(items@.take(i as int + 1)).last() == items@[i as int]@);
        }
        if i > 0 {
            list.append("\n");
        }
        list.append("  - ");
        list.append(items[i].as_str());
        proof {
            if i == 0 {
                assert(texts(items@.take(1)) =~= seq![items@[0]@]);
            }
        }
        i += 1;
    }
    proof {
        assert(items@.take(items@.len() as int) =~= items@);
    }
    list
}

/// Collapse collected errors into a result.
///
/// No error is success, a single error is returned as it is, and several are
/// wrapped through `multiple`.
pub fn collapse<E, F: FnOnce(Vec<E>) -> E>(errors: Vec<E>, multiple: F) -> (r: Result<(), E>)
    requires
        errors@.len() >= 2 ==> multiple.requires((errors,)),
    ensures
        errors@.len() == 0 ==> r is Ok,
        errors@.len() == 1 ==> r == Err::<(), E>(errors@[0]),
        errors@.len() >= 2 ==> (r matches Err(e) && multiple.ensures((errors,), e)),
{
    let mut errors = errors;
    if errors.len() == 0 {
        Ok(())
    } else if errors.len() == 1 {
        match errors.pop() {
            Some(e) => Err(e),
            None => Ok(()),
        }
    } else {
        Err(multiple(errors))
    }
}

} // verus!
