use vstd::prelude::*;

verus! {

/// The category filter after one step: from no filter to the first (or,
/// backward, the last) category, through the list, and past either end
/// back to no filter. With no categories there is no filter.
pub fn next_category(current: Option<usize>, len: usize, backward: bool) -> (r: Option<usize>)
    ensures
        len == 0 ==> r.is_none(),
        len > 0 && current.is_none() ==> r == if backward {
            Some((len - 1) as usize)
        } else {
            Some(0usize)
        },
        len > 0 && current.is_some() ==> r == if backward {
            if current.unwrap() == 0 || current.unwrap() > len {
                None
            } else {
                Some((current.unwrap() - 1) as usize)
            }
        } else {
            if current.unwrap() + 1 >= len {
                None
            } else {
                Some((current.unwrap() + 1) as usize)
            }
        },
{
    if len == 0 {
        return None;
    }
    match current {
        None => Some(if backward { len - 1 } else { 0 }),
        Some(i) => {
            if backward {
                if i == 0 || i > len {
                    None
                } else {
                    Some(i - 1)
                }
            } else if i >= len - 1 {
                None
            } else {
                Some(i + 1)
            }
        },
    }
}

/// `index` bounded to the positions of a list of `len` items; `None` for
/// an empty list.
pub fn mixer_index(index: usize, len: usize) -> (r: Option<usize>)
    ensures
        len == 0 ==> r.is_none(),
        len > 0 ==> r == Some(if index >= len { (len - 1) as usize } else { index }),
{
    if len == 0 {
        None
    } else if index >= len {
        Some(len - 1)
    } else {
        Some(index)
    }
}

/// The mixer selection after one step forward or backward over `len`
/// playing sounds; with no selection, the first.
pub fn mixer_step(current: Option<usize>, len: usize, forward: bool) -> (r: Option<usize>)
    ensures
        current.is_none() ==> r == Some(0usize),
        current.is_some() && len == 0 ==> r.is_none(),
        current.is_some() && len > 0 ==> r == Some(
            if forward {
                if current.unwrap() + 1 >= len {
                    (len - 1) as usize
                } else {
                    (current.unwrap() + 1) as usize
                }
            } else {
                if current.unwrap() == 0 {
                    0usize
                } else if current.unwrap() - 1 >= len {
                    (len - 1) as usize
                } else {
                    (current.unwrap() - 1) as usize
                }
            },
        ),
{
    match current {
        None => Some(0),
        Some(i) => {
            if forward {
                mixer_index(i.saturating_add(1), len)
            } else {
                mixer_index(i.saturating_sub(1), len)
            }
        },
    }
}

} // verus!
