//! Bars, sparklines and shortened names.

use vstd::prelude::*;
use crate::text::{chars_of, push_char, push_repeat, repeat_char};

verus! {

/// The full block that fills a bar.
pub open spec fn full_block() -> char { '\u{2588}' }

/// The light shade that pads a bar.
pub open spec fn light_shade() -> char { '\u{2591}' }

/// A bar of `width` cells, the first `filled` of them (at most all) full.
pub open spec fn bar(filled: nat, width: nat) -> Seq<char> {
    let f = if filled <= width { filled } else { width };
    repeat_char(full_block(), f) + repeat_char(light_shade(), (width - f) as nat)
}

/// The eighth-block glyph for `level` (0 to 7, higher levels are capped).
pub open spec fn spark_glyph(level: nat) -> char {
    if level == 0 { '\u{2581}' }
    else if level == 1 { '\u{2582}' }
    else if level == 2 { '\u{2583}' }
    else if level == 3 { '\u{2584}' }
    else if level == 4 { '\u{2585}' }
    else if level == 5 { '\u{2586}' }
    else if level == 6 { '\u{2587}' }
    else { '\u{2588}' }
}

/// A three-glyph sparkline for `level`.
pub open spec fn sparkline(level: nat) -> Seq<char> {
    repeat_char(spark_glyph(level), 3)
}

/// `name` fitted into `max_width` characters. Below seven characters the
/// name is cut; otherwise a name that does not fit keeps its start and its
/// end around `"..."`, the start one character shorter when the kept
/// characters are odd in number.
pub open spec fn shortened(name: Seq<char>, max_width: nat) -> Seq<char> {
    if max_width < 7 {
        if name.len() <= max_width { name } else { name.take(max_width as int) }
    } else if name.len() <= max_width {
        name
    } else {
        let keep = (max_width - 3) as nat;
        let front = keep / 2;
        let back = (keep - front) as nat;
        name.take(front as int) + seq!['.', '.', '.'] + name.skip(name.len() - back)
    }
}

/// The bar with `filled` of `width` cells full.
pub fn make_bar(filled: usize, width: usize) -> (r: String)
    ensures
        r@ == bar(filled as nat, width as nat),
{
    let f = if filled <= width { filled } else { width };
    let mut s = String::new();
    push_repeat(&mut s, '\u{2588}', f);
    push_repeat(&mut s, '\u{2591}', width - f);
    assert(s@ =~= bar(filled as nat, width as nat));
    s
}

fn spark_glyph_exec(level: usize) -> (c: char)
    ensures
        c == spark_glyph(level as nat),
{
    if level == 0 { '\u{2581}' }
    else if level == 1 { '\u{2582}' }
    else if level == 2 { '\u{2583}' }
    else if level == 3 { '\u{2584}' }
    else if level == 4 { '\u{2585}' }
    else if level == 5 { '\u{2586}' }
    else if level == 6 { '\u{2587}' }
    else { '\u{2588}' }
}

/// The sparkline for `level`.
pub fn make_sparkline(level: usize) -> (r: String)
    ensures
        r@ == sparkline(level as nat),
{
    let mut s = String::new();
    push_repeat(&mut s, spark_glyph_exec(level), 3);
    assert(s@ =~= sparkline(level as nat));
    s
}

/// `name` fitted into `max_width` characters (see [`shortened`]).
pub fn truncate_name(name: &str, max_width: usize) -> (r: String)
    ensures
        r@ == shortened(name@, max_width as nat),
{
    let cs = chars_of(name);
    let n = cs.len();
    let mut s = String::new();
    if max_width < 7 {
        let take = if n <= max_width { n } else { max_width };
        let mut i: usize = 0;
        while i < take
            invariant
                i <= take,
                take <= n,
                n == cs@.len(),
                s@ == cs@.take(i as int),
            decreases take - i,
        {
            push_char(&mut s, cs[i]);
            i = i + 1;
            assert(s@ =~= cs@.take(i as int));
        }
        assert(n <= max_width ==> cs@.take(n as int) =~= cs@);
        return s;
    }
    if n <= max_width {
        let mut i: usize = 0;
        while i < n
            invariant
                i <= n,
                n == cs@.len(),
                s@ == cs@.take(i as int),
            decreases n - i,
        {
            push_char(&mut s, cs[i]);
            i = i + 1;
            assert(s@ =~= cs@.take(i as int));
        }
        assert(cs@.take(n as int) =~= cs@);
        return s;
    }
    let keep = max_width - 3;
    let front = keep / 2;
    let back = keep - front;
    let mut i: usize = 0;
    while i < front
        invariant
            i <= front,
            front < n,
            n == cs@.len(),
            s@ == cs@.take(i as int),
        decreases front - i,
    {
        push_char(&mut s, cs[i]);
        i = i + 1;
        assert(s@ =~= cs@.take(i as int));
    }
    push_char(&mut s, '.');
    push_char(&mut s, '.');
    push_char(&mut s, '.');
    let ghost head = s@;
    let mut j: usize = n - back;
    while j < n
        invariant
            back <= n,
            n - back <= j <= n,
            n == cs@.len(),
            s@ == head + cs@.subrange(n - back, j as int),
        decreases n - j,
    {
        push_char(&mut s, cs[j]);
        j = j + 1;
        assert(s@ =~= head + cs@.subrange(n - back, j as int));
    }
    assert(s@ =~= shortened(name@, max_width as nat));
    s
}

} // verus!
