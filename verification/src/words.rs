//! Texts: what trimming, lowering, dividing and joining leave of them, how
//! numbers are spelt and read, and what a machine says of its own state.

use crate::discovery::{field_of, line_of_field, reported_layout};
use crate::hotkeys::{function_number, normalized, without_spaces};
use crate::layout::LayoutState;
use crate::platform::Platform;
use crate::seqs::{lemma_first, lemma_first_is};
use crate::status::{
    capture_start, receiving, runtime_status, thread_started, CaptureStartView, Permissions,
    ThreadStart,
};
use crate::targets::{quic_port_of, targets_of};
use crate::text::{
    begins_with, decimal, digits_value, is_digit, joined, lemma_decimal, lowered, parsed_u16,
    pieces, precedes, signed_decimal, trimmed, white_space, without_leading, without_trailing,
};
use vstd::prelude::*;

verus! {

// ---------------------------------------------------------------------------
// Characters
// ---------------------------------------------------------------------------
/// Lowering turns each capital letter into the small one of the same place in
/// the alphabet and leaves every other character.
pub proof fn law_lowering_goes_letter_by_letter(s: Seq<char>, i: int)
    requires
        0 <= i < s.len(),
    ensures
        lowered(s).len() == s.len(),
        'A' <= s[i] <= 'Z' ==> lowered(s)[i] as int - 'a' as int == s[i] as int - 'A' as int,
        !('A' <= s[i] <= 'Z') ==> lowered(s)[i] == s[i],
{
    let c = s[i];
    if 'A' <= c <= 'Z' {
        assert((((c as u32 + 32) as u32) as char) as int == c as int + 32);
    }
}

proof fn lemma_leading(s: Seq<char>, drop: spec_fn(char) -> bool) -> (from: int)
    ensures
        0 <= from <= s.len(),
        without_leading(s, drop) == s.skip(from),
        forall|i: int| 0 <= i < from ==> drop(#[trigger] s[i]),
        from < s.len() ==> !drop(s[from]),
    decreases s.len(),
{
    if s.len() > 0 && drop(s[0]) {
        let rest = s.drop_first();
        let from = lemma_leading(rest, drop);
        assert(rest.skip(from) =~= s.skip(from + 1));
        assert forall|i: int| 0 <= i < from + 1 implies drop(#[trigger] s[i]) by {
            if i > 0 {
                assert(rest[i - 1] == s[i]);
            }
        }
        if from + 1 < s.len() {
            assert(rest[from] == s[from + 1]);
        }
        from + 1
    } else {
        assert(s.skip(0) =~= s);
        0
    }
}

proof fn lemma_trailing(s: Seq<char>, drop: spec_fn(char) -> bool) -> (to: int)
    ensures
        0 <= to <= s.len(),
        without_trailing(s, drop) == s.take(to),
        forall|i: int| to <= i < s.len() ==> drop(#[trigger] s[i]),
        to > 0 ==> !drop(s[to - 1]),
    decreases s.len(),
{
    if s.len() > 0 && drop(s.last()) {
        let rest = s.drop_last();
        let to = lemma_trailing(rest, drop);
        assert(rest.take(to) =~= s.take(to));
        assert forall|i: int| to <= i < s.len() implies drop(#[trigger] s[i]) by {
            if i < rest.len() {
                assert(rest[i] == s[i]);
            }
        }
        if to > 0 {
            assert(rest[to - 1] == s[to - 1]);
        }
        to
    } else {
        assert(s.take(s.len() as int) =~= s);
        s.len() as int
    }
}

/// Trimming leaves the stretch between the first and the last character that is
/// not white space, and nothing where there is none.
pub proof fn law_trimming_drops_white_space_at_both_ends(s: Seq<char>)
    ensures
        exists|from: int, to: int|
            #![trigger s.subrange(from, to)]
            0 <= from <= to <= s.len() && trimmed(s) == s.subrange(from, to) && (forall|i: int|
                0 <= i < from ==> white_space(#[trigger] s[i])) && (forall|i: int|
                to <= i < s.len() ==> white_space(#[trigger] s[i])),
        trimmed(s).len() > 0 ==> !white_space(trimmed(s)[0]) && !white_space(trimmed(s).last()),
{
    let drop = |c: char| white_space(c);
    let from = lemma_leading(s, drop);
    let rest = s.skip(from);
    let length = lemma_trailing(rest, drop);
    let to = from + length;
    assert(rest.take(length) =~= s.subrange(from, to));
    assert forall|i: int| 0 <= i < from implies white_space(#[trigger] s[i]) by {
        assert(drop(s[i]));
    }
    assert forall|i: int| to <= i < s.len() implies white_space(#[trigger] s[i]) by {
        assert(rest[i - from] == s[i]);
        assert(drop(rest[i - from]));
    }
    assert(trimmed(s) == s.subrange(from, to));
    if length > 0 {
        assert(trimmed(s)[0] == s[from]);
        assert(rest[length - 1] == trimmed(s).last());
    }
}

/// A chord is read without its spaces: what is left holds none, and every other
/// character stands in it, in its order.
pub proof fn law_chords_are_read_without_spaces(s: Seq<char>)
    ensures
        without_spaces(s) == s.filter(|c: char| c != ' '),
        !without_spaces(s).contains(' '),
    decreases s.len(),
{
    let kept = |c: char| c != ' ';
    reveal(Seq::filter);
    if s.len() > 0 {
        law_chords_are_read_without_spaces(s.drop_last());
        let front = without_spaces(s.drop_last());
        if s.last() != ' ' {
            let all = front.push(s.last());
            assert(without_spaces(s) == all);
            if all.contains(' ') {
                let i = choose|i: int| 0 <= i < all.len() && all[i] == ' ';
                assert(i < front.len());
                assert(front[i] == ' ');
            }
        }
    }
}

/// How a chord is written does not matter: white space around it, spaces within
/// it and capitals go, and nothing else does.
pub proof fn law_chords_are_read_in_small_letters(s: Seq<char>)
    ensures
        normalized(s) == lowered(trimmed(s)).filter(|c: char| c != ' '),
{
    law_chords_are_read_without_spaces(lowered(trimmed(s)));
}

// ---------------------------------------------------------------------------
// Numbers
// ---------------------------------------------------------------------------
/// A number is spelt in digits, without a leading zero unless it is zero, and
/// reads back as itself.
pub proof fn law_numbers_read_back(n: nat)
    ensures
        digits_value(decimal(n)) == n,
        forall|i: int| 0 <= i < decimal(n).len() ==> is_digit(#[trigger] decimal(n)[i]),
        n > 0 ==> decimal(n)[0] != '0',
        n <= 0xffff ==> parsed_u16(decimal(n)) == Some(n as u16),
    decreases n,
{
    lemma_decimal(n);
    if n >= 10 {
        law_numbers_read_back(n / 10);
        assert(decimal(n)[0] == decimal(n / 10)[0]);
    } else {
        assert(decimal(n)[0] as int == '0' as int + n);
    }
    assert(is_digit(decimal(n)[0]));
}

/// A negative number is spelt as its opposite behind a sign.
pub proof fn law_signs_stand_in_front(n: nat)
    ensures
        signed_decimal(n as int) == decimal(n),
        n > 0 ==> signed_decimal(-(n as int)).len() == decimal(n).len() + 1,
        n > 0 ==> signed_decimal(-(n as int))[0] == '-',
        n > 0 ==> signed_decimal(-(n as int)).drop_first() == decimal(n),
{
    if n > 0 {
        assert(signed_decimal(-(n as int)).drop_first() =~= decimal(n));
    }
}

/// The function keys are those from the first to the twenty-fourth, each read
/// from an `f` and its number.
pub proof fn law_function_keys_are_numbered(n: nat)
    requires
        n <= 0xffff,
    ensures
        1 <= n <= 24 ==> function_number(seq!['f'] + decimal(n)) == Some(n as u16),
        n == 0 || n > 24 ==> function_number(seq!['f'] + decimal(n)) is None,
{
    let key = seq!['f'] + decimal(n);
    assert(key.drop_first() =~= decimal(n));
    law_numbers_read_back(n);
}

// ---------------------------------------------------------------------------
// Dividing and joining
// ---------------------------------------------------------------------------
proof fn lemma_joined_grows(parts: Seq<Seq<char>>, separator: Seq<char>, added: Seq<char>)
    requires
        parts.len() > 0,
    ensures
        joined(parts.drop_last().push(parts.last() + added), separator) == joined(parts, separator)
            + added,
{
    let longer = parts.drop_last().push(parts.last() + added);
    if parts.len() > 1 {
        assert(longer.drop_last() =~= parts.drop_last());
        let front = joined(parts.drop_last(), separator) + separator;
        assert(front + (parts.last() + added) =~= front + parts.last() + added);
    }
}

/// A text that was divided at a separator is joined by it again, and the
/// separator stands in none of the pieces.
pub proof fn law_pieces_join_to_the_text(s: Seq<char>, separator: char)
    ensures
        pieces(s, separator).len() > 0,
        joined(pieces(s, separator), seq![separator]) == s,
        forall|i: int|
            0 <= i < pieces(s, separator).len() ==> !(#[trigger] pieces(s, separator)[i]).contains(
                separator,
            ),
    decreases s.len(),
{
    let all = pieces(s, separator);
    if s.len() == 0 {
        assert(joined(all, seq![separator]) =~= s);
    } else {
        let front = s.drop_last();
        let before = pieces(front, separator);
        law_pieces_join_to_the_text(front, separator);
        if s.last() == separator {
            assert(all.drop_last() =~= before);
            assert(joined(all, seq![separator]) =~= front.push(separator));
            assert(s =~= front.push(separator));
        } else {
            let added = seq![s.last()];
            assert(before.last().push(s.last()) =~= before.last() + added);
            lemma_joined_grows(before, seq![separator], added);
            assert(s =~= front + added);
            assert forall|i: int| 0 <= i < all.len() implies !(#[trigger] all[i]).contains(
                separator,
            ) by {
                if i < before.len() - 1 {
                    assert(all[i] == before[i]);
                } else {
                    let last = before[before.len() - 1];
                    assert(!last.contains(separator));
                    assert(all[i] == last.push(s.last()));
                    if all[i].contains(separator) {
                        let k = choose|k: int| 0 <= k < all[i].len() && all[i][k] == separator;
                        assert(k < last.len());
                        assert(last[k] == separator);
                    }
                }
            }
        }
    }
}

/// Two texts are joined with the separator between them, and one alone is left
/// as it is.
pub proof fn law_joined_texts_keep_their_order(a: Seq<char>, b: Seq<char>, separator: Seq<char>)
    ensures
        joined(seq![a], separator) == a,
        joined(seq![a, b], separator) == a + separator + b,
{
    assert(seq![a, b].drop_last() =~= seq![a]);
}

/// Of two texts the one comes first whose character is the smaller where they
/// first differ, or that ends there.
pub proof fn law_texts_are_ordered_where_they_differ(
    common: Seq<char>,
    a: Seq<char>,
    b: Seq<char>,
)
    ensures
        b.len() > 0 ==> precedes(common, common + b),
        a.len() > 0 && b.len() > 0 && a[0] < b[0] ==> precedes(common + a, common + b) && !precedes(
            common + b,
            common + a,
        ),
    decreases common.len(),
{
    if common.len() == 0 {
        assert(common + a =~= a);
        assert(common + b =~= b);
    } else {
        let rest = common.drop_first();
        law_texts_are_ordered_where_they_differ(rest, a, b);
        assert((common + a).drop_first() =~= rest + a);
        assert((common + b).drop_first() =~= rest + b);
    }
}

// ---------------------------------------------------------------------------
// The keyboard layout of a report
// ---------------------------------------------------------------------------
/// A report names the keyboard layout in a line of its own and a variant in
/// another; the variant stands in brackets behind the layout, and without a
/// layout nothing is told.
pub proof fn law_reports_name_the_layout(report: Seq<char>, i: int, j: int)
    requires
        0 <= i < pieces(report, '\n').len(),
        begins_with(trimmed(pieces(report, '\n')[i]), "X11 Layout:"@),
        forall|k: int|
            0 <= k < i ==> !begins_with(trimmed(#[trigger] pieces(report, '\n')[k]), "X11 Layout:"@),
        0 <= j < pieces(report, '\n').len(),
        begins_with(trimmed(pieces(report, '\n')[j]), "X11 Variant:"@),
        forall|k: int|
            0 <= k < j ==> !begins_with(
                trimmed(#[trigger] pieces(report, '\n')[k]),
                "X11 Variant:"@,
            ),
    ensures
        ({
            let layout = trimmed(trimmed(pieces(report, '\n')[i]).skip(11));
            let variant = trimmed(trimmed(pieces(report, '\n')[j]).skip(12));
            &&& layout.len() > 0 && variant.len() > 0 ==> reported_layout(report) == layout
                + seq!['('] + variant + seq![')']
            &&& layout.len() > 0 && variant.len() == 0 ==> reported_layout(report) == layout
            &&& layout.len() == 0 ==> reported_layout(report).len() == 0
        }),
{
    let lines = pieces(report, '\n');
    reveal_strlit("X11 Layout:");
    reveal_strlit("X11 Variant:");
    reveal_strlit("(");
    reveal_strlit(")");
    assert("("@ =~= seq!['(']);
    assert(")"@ =~= seq![')']);
    lemma_first_is(lines, line_of_field("X11 Layout:"@), i);
    lemma_first_is(lines, line_of_field("X11 Variant:"@), j);
}

/// A field that no line begins with is empty.
pub proof fn law_missing_fields_are_empty(lines: Seq<Seq<char>>, name: Seq<char>)
    requires
        forall|k: int| 0 <= k < lines.len() ==> !begins_with(trimmed(#[trigger] lines[k]), name),
    ensures
        field_of(lines, name).len() == 0,
{
    lemma_first(lines, line_of_field(name));
}

// ---------------------------------------------------------------------------
// The state of the runtime
// ---------------------------------------------------------------------------
/// Capturing is ready on macOS and Windows where this machine controls others
/// and there is one to control; it idles where it only receives or has none.
pub proof fn law_capturing_is_ready_where_it_can_be(
    layout: LayoutState,
    target_count: nat,
    platform: Platform,
    permissions: Permissions,
)
    ensures
        ({
            let state = runtime_status(layout, target_count, platform, permissions).0.0;
            let controls = layout.input_mode@ != "receive"@;
            let captures = platform == Platform::MacOs || platform == Platform::Windows;
            &&& controls && target_count > 0 && captures <==> state == "ready"@
            &&& !controls || target_count == 0 <==> state == "idle"@
            &&& controls && target_count > 0 && !captures <==> state == "stubbed"@
        }),
{
    lemma_states_differ();
}

/// Input can be received everywhere but on a Mac that does not trust the
/// application or that keeps the keyboard to itself.
pub proof fn law_receiving_needs_the_macs_trust(
    layout: LayoutState,
    platform: Platform,
    permissions: Permissions,
)
    ensures
        ({
            let (state, detail) = receiving(layout, platform, permissions);
            let barred = platform == Platform::MacOs && (!permissions.accessibility_trusted
                || permissions.secure_input);
            &&& barred <==> state == "error"@
            &&& !barred <==> state == "ready"@
            &&& !barred ==> detail == "Receiving shared input on QUIC datagrams at UDP "@ + decimal(
                quic_port_of(layout.transport_port, layout.quic_port) as nat,
            ) + "."@
        }),
{
    lemma_states_differ();
}

/// A machine that only receives captures nothing, nor does one that cannot;
/// every other captures for the targets of its layout.
pub proof fn law_capturing_starts_with_the_targets(
    layout: LayoutState,
    native_layout: LayoutState,
    origin_id: Seq<char>,
    platform: Platform,
)
    ensures
        ({
            let start = capture_start(layout, native_layout, origin_id, platform);
            let captures = layout.input_mode@ != "receive"@ && platform != Platform::Other;
            &&& captures ==> start == CaptureStartView::Capture(
                targets_of(layout, native_layout, origin_id, platform),
            )
            &&& !captures ==> start is Nothing
        }),
{
}

/// A capture that came up is ready and one that did not is an error, with the
/// reason that it gave.
pub proof fn law_a_failed_capture_is_an_error(
    platform: Platform,
    start: ThreadStart,
    target_count: nat,
)
    ensures
        ({
            let (state, detail) = thread_started(platform, start, target_count);
            &&& start is Ready <==> state == "ready"@
            &&& !(start is Ready) <==> state == "error"@
            &&& start matches ThreadStart::Failed(reason) ==> detail == reason@
        }),
{
    lemma_states_differ();
}

proof fn lemma_states_differ()
    ensures
        "ready"@ != "idle"@,
        "ready"@ != "stubbed"@,
        "idle"@ != "stubbed"@,
        "ready"@ != "error"@,
{
    reveal_strlit("ready");
    reveal_strlit("idle");
    reveal_strlit("stubbed");
    reveal_strlit("error");
    assert("ready"@.len() == 5 && "idle"@.len() == 4 && "stubbed"@.len() == 7);
    assert("ready"@[0] != "error"@[0]);
}

} // verus!
