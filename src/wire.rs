//! The wire form of messages: one JSON object per frame, its kind under
//! `"type"`, and a decoder that is proved to read every encoded message back.

use vstd::prelude::*;
use crate::outside::string_of;
use crate::text::chars_of;
use crate::text::push_str;
use crate::types::{DeviceType, LanMessage, MessageView, ServerInfo, ServerInfoView, texts};

verus! {

// ---------------------------------------------------------------------------
// Quoted text: the escaping of a text inside double quotes.
// ---------------------------------------------------------------------------

/// The escaped form of one character.
pub open spec fn esc_char(c: char) -> Seq<char> {
    if c == '"' {
        seq!['\\', '"']
    } else if c == '\\' {
        seq!['\\', '\\']
    } else if c == '\n' {
        seq!['\\', 'n']
    } else if c == '\r' {
        seq!['\\', 'r']
    } else if c == '\t' {
        seq!['\\', 't']
    } else if needs_unicode_escape(c) {
        unicode_escape(c)
    } else {
        seq![c]
    }
}

/// A control character that has no short escape.
pub open spec fn needs_unicode_escape(c: char) -> bool {
    (c as u32) < 32 && c != '\n' && c != '\r' && c != '\t'
}

/// The lower-case hexadecimal digit for `d`, for `d < 16`.
pub open spec fn hex_char(d: nat) -> char {
    if d < 10 {
        digit_char(d)
    } else if d == 10 {
        'a'
    } else if d == 11 {
        'b'
    } else if d == 12 {
        'c'
    } else if d == 13 {
        'd'
    } else if d == 14 {
        'e'
    } else {
        'f'
    }
}

/// The value of a lower-case hexadecimal digit.
pub open spec fn hex_value(c: char) -> Option<nat> {
    if digit_value(c) is Some {
        digit_value(c)
    } else if c == 'a' {
        Some(10)
    } else if c == 'b' {
        Some(11)
    } else if c == 'c' {
        Some(12)
    } else if c == 'd' {
        Some(13)
    } else if c == 'e' {
        Some(14)
    } else if c == 'f' {
        Some(15)
    } else {
        None
    }
}

/// The `\u00XX` escape of a control character.
pub open spec fn unicode_escape(c: char) -> Seq<char> {
    seq!['\\', 'u', '0', '0', hex_char((c as u32 / 16) as nat), hex_char((c as u32 % 16) as nat)]
}

/// The control character that a `\u00XX` escape at position `i` stands for.
pub open spec fn unicode_at(t: Seq<char>, i: int) -> Option<char> {
    if 0 <= i && i + 6 <= t.len() && t[i] == '\\' && t[i + 1] == 'u' && t[i + 2] == '0' && t[i
        + 3] == '0' && hex_value(t[i + 4]) is Some && hex_value(t[i + 5]) is Some {
        let code = hex_value(t[i + 4])->0 * 16 + hex_value(t[i + 5])->0;
        let c = (code as u8) as char;
        if code < 32 && needs_unicode_escape(c) {
            Some(c)
        } else {
            None
        }
    } else {
        None
    }
}

/// The escaped form of a text.
pub open spec fn escaped(s: Seq<char>) -> Seq<char>
    decreases s.len(),
{
    if s.len() == 0 {
        Seq::empty()
    } else {
        esc_char(s[0]) + escaped(s.drop_first())
    }
}

/// A text written between double quotes, escaped.
pub open spec fn quoted(s: Seq<char>) -> Seq<char> {
    seq!['"'] + escaped(s) + seq!['"']
}

/// The character that an escape code stands for.
pub open spec fn unescape_code(c: char) -> Option<char> {
    if c == '"' {
        Some('"')
    } else if c == '\\' {
        Some('\\')
    } else if c == 'n' {
        Some('\n')
    } else if c == 'r' {
        Some('\r')
    } else if c == 't' {
        Some('\t')
    } else {
        None
    }
}

/// Reads the inside of a quoted text from position `i` up to and including
/// its closing quote: the text and the position after the quote.
pub open spec fn scan_text(t: Seq<char>, i: int) -> Option<(Seq<char>, int)>
    decreases t.len() - i,
{
    if i < 0 || i >= t.len() {
        None
    } else if t[i] == '"' {
        Some((Seq::empty(), i + 1))
    } else if t[i] == '\\' {
        if i + 1 < t.len() && unescape_code(t[i + 1]) is Some {
            match scan_text(t, i + 2) {
                Some((s, j)) => Some((seq![unescape_code(t[i + 1])->0] + s, j)),
                None => None,
            }
        } else if unicode_at(t, i) is Some {
            match scan_text(t, i + 6) {
                Some((s, j)) => Some((seq![unicode_at(t, i)->0] + s, j)),
                None => None,
            }
        } else {
            None
        }
    } else if (t[i] as u32) < 32 {
        None
    } else {
        match scan_text(t, i + 1) {
            Some((s, j)) => Some((seq![t[i]] + s, j)),
            None => None,
        }
    }
}

/// Reads a quoted text that starts at position `i`.
pub open spec fn text_at(t: Seq<char>, i: int) -> Option<(Seq<char>, int)> {
    if 0 <= i < t.len() && t[i] == '"' {
        scan_text(t, i + 1)
    } else {
        None
    }
}

/// `p` stands in `t` at position `i`.
pub open spec fn occurs_at(t: Seq<char>, i: int, p: Seq<char>) -> bool {
    0 <= i && i + p.len() <= t.len() && t.subrange(i, i + p.len()) == p
}

proof fn lemma_escaped_append(a: Seq<char>, c: char)
    ensures
        escaped(a.push(c)) == escaped(a) + esc_char(c),
    decreases a.len(),
{
    if a.len() == 0 {
        assert(a.push(c).drop_first() =~= Seq::<char>::empty());
        assert(escaped(a.push(c)) =~= esc_char(c) + escaped(Seq::<char>::empty()));
        assert(escaped(a) + esc_char(c) =~= esc_char(c));
    } else {
        assert(a.push(c).drop_first() =~= a.drop_first().push(c));
        lemma_escaped_append(a.drop_first(), c);
        assert(escaped(a.push(c)) =~= esc_char(a[0]) + escaped(a.drop_first().push(c)));
    }
}

proof fn lemma_hex_round(d: nat)
    requires
        d < 16,
    ensures
        hex_value(hex_char(d)) == Some(d),
{
    if d < 10 {
        lemma_digit_round(d);
    }
}

proof fn lemma_hex_inverse(c: char)
    requires
        hex_value(c) is Some,
    ensures
        hex_value(c)->0 < 16,
        hex_char(hex_value(c)->0) == c,
{
}

proof fn lemma_unicode_escape_read(t: Seq<char>, i: int, c: char)
    requires
        needs_unicode_escape(c),
        occurs_at(t, i, unicode_escape(c)),
    ensures
        unicode_at(t, i) == Some(c),
{
    let n = c as u32;
    let e = unicode_escape(c);
    lemma_hex_round((n / 16) as nat);
    lemma_hex_round((n % 16) as nat);
    assert(t[i] == e[0] && t[i + 1] == e[1] && t[i + 2] == e[2] && t[i + 3] == e[3]);
    assert(t[i + 4] == e[4] && t[i + 5] == e[5]);
    assert((n / 16) * 16 + n % 16 == n);
    assert(((n as u8) as char) as u32 == n);
    assert(((n as u8) as char) == c);
}

proof fn lemma_unicode_sound(t: Seq<char>, i: int)
    requires
        unicode_at(t, i) is Some,
    ensures
        i + 6 <= t.len(),
        t.subrange(i, i + 6) == esc_char(unicode_at(t, i)->0),
{
    let c = unicode_at(t, i)->0;
    let hi = hex_value(t[i + 4])->0;
    let lo = hex_value(t[i + 5])->0;
    lemma_hex_inverse(t[i + 4]);
    lemma_hex_inverse(t[i + 5]);
    let code = hi * 16 + lo;
    assert(c as u32 == code);
    assert(code / 16 == hi && code % 16 == lo);
    assert(esc_char(c) == unicode_escape(c));
    assert(t.subrange(i, i + 6) =~= unicode_escape(c));
}

proof fn lemma_scan_escaped(t: Seq<char>, i: int, s: Seq<char>)
    requires
        occurs_at(t, i, escaped(s).push('"')),
    ensures
        scan_text(t, i) == Some((s, i + escaped(s).len() + 1)),
    decreases s.len(),
{
    if s.len() == 0 {
        assert(t[i] == escaped(s).push('"')[0]);
    } else {
        let c = s[0];
        let e = esc_char(c);
        let rest = s.drop_first();
        assert(escaped(s) == e + escaped(rest));
        let whole = escaped(s).push('"');
        assert(whole =~= e + escaped(rest).push('"'));
        assert(whole.subrange(e.len() as int, whole.len() as int) =~= escaped(rest).push('"'));
        assert(t.subrange(i + e.len(), i + whole.len()) =~= t.subrange(i, i + whole.len()).subrange(
            e.len() as int,
            whole.len() as int,
        ));
        lemma_scan_escaped(t, i + e.len(), rest);
        assert(t[i] == whole[0]);
        if e.len() == 2 {
            assert(t[i + 1] == whole[1]);
        }
        if needs_unicode_escape(c) {
            assert(t.subrange(i, i + 6) =~= whole.subrange(0, 6));
            assert(whole.subrange(0, 6) =~= unicode_escape(c));
            lemma_unicode_escape_read(t, i, c);
            assert(t[i + 1] == whole[1]);
        }
        assert(seq![c] + rest =~= s);
    }
}

/// Reading a quoted text back gives the text and the position after it.
proof fn lemma_text_at_quoted(t: Seq<char>, i: int, s: Seq<char>)
    requires
        occurs_at(t, i, quoted(s)),
    ensures
        text_at(t, i) == Some((s, i + quoted(s).len())),
{
    let q = quoted(s);
    assert(t[i] == q[0]);
    assert(t.subrange(i + 1, i + 1 + escaped(s).len() + 1) =~= q.subrange(1, q.len() as int));
    assert(q.subrange(1, q.len() as int) =~= escaped(s).push('"'));
    lemma_scan_escaped(t, i + 1, s);
}


// ---------------------------------------------------------------------------
// Decimal counts
// ---------------------------------------------------------------------------

/// The decimal digit for `d`, for `d < 10`.
pub open spec fn digit_char(d: nat) -> char {
    if d == 0 {
        '0'
    } else if d == 1 {
        '1'
    } else if d == 2 {
        '2'
    } else if d == 3 {
        '3'
    } else if d == 4 {
        '4'
    } else if d == 5 {
        '5'
    } else if d == 6 {
        '6'
    } else if d == 7 {
        '7'
    } else if d == 8 {
        '8'
    } else {
        '9'
    }
}

/// The value of a decimal digit character.
pub open spec fn digit_value(c: char) -> Option<nat> {
    if c == '0' {
        Some(0)
    } else if c == '1' {
        Some(1)
    } else if c == '2' {
        Some(2)
    } else if c == '3' {
        Some(3)
    } else if c == '4' {
        Some(4)
    } else if c == '5' {
        Some(5)
    } else if c == '6' {
        Some(6)
    } else if c == '7' {
        Some(7)
    } else if c == '8' {
        Some(8)
    } else if c == '9' {
        Some(9)
    } else {
        None
    }
}

/// The decimal form of `n`, without leading zeros.
pub open spec fn decimal(n: nat) -> Seq<char>
    decreases n,
{
    if n < 10 {
        seq![digit_char(n)]
    } else {
        decimal(n / 10).push(digit_char(n % 10))
    }
}

/// The value of a sequence of digits.
pub open spec fn digits_value(d: Seq<char>) -> nat
    decreases d.len(),
{
    if d.len() == 0 {
        0
    } else {
        digits_value(d.drop_last()) * 10 + digit_value(d.last()).unwrap_or(0)
    }
}

/// The end of the run of digits that starts at `i`.
pub open spec fn digit_run_end(t: Seq<char>, i: int) -> int
    decreases t.len() - i,
{
    if 0 <= i < t.len() && digit_value(t[i]) is Some {
        digit_run_end(t, i + 1)
    } else {
        i
    }
}

/// Reads a count written in decimal at position `i`: the digit run must be
/// the canonical decimal form of a value that fits in `usize`.
pub open spec fn count_at(t: Seq<char>, i: int) -> Option<(nat, int)> {
    let j = digit_run_end(t, i);
    let v = digits_value(t.subrange(i, j));
    if 0 <= i && i < j && v <= usize::MAX && decimal(v) == t.subrange(i, j) {
        Some((v, j))
    } else {
        None
    }
}

proof fn lemma_digit_run_end_bounds(t: Seq<char>, i: int)
    requires
        0 <= i <= t.len(),
    ensures
        i <= digit_run_end(t, i) <= t.len(),
        forall|k: int| i <= k < digit_run_end(t, i) ==> digit_value(#[trigger] t[k]) is Some,
    decreases t.len() - i,
{
    if i < t.len() && digit_value(t[i]) is Some {
        lemma_digit_run_end_bounds(t, i + 1);
    }
}

proof fn lemma_decimal_digits(n: nat)
    ensures
        decimal(n).len() >= 1,
        forall|k: int| 0 <= k < decimal(n).len() ==> digit_value(#[trigger] decimal(n)[k]) is Some,
        digits_value(decimal(n)) == n,
    decreases n,
{
    let d = decimal(n);
    lemma_digit_round(n % 10);
    if n >= 10 {
        lemma_decimal_digits(n / 10);
        assert(d.drop_last() =~= decimal(n / 10));
        assert(forall|k: int| 0 <= k < d.len() - 1 ==> d[k] == decimal(n / 10)[k]);
        assert((n / 10) * 10 + n % 10 == n) by (nonlinear_arith);
        assert(d.last() == digit_char(n % 10));
        assert(digits_value(d) == digits_value(d.drop_last()) * 10 + digit_value(d.last()).unwrap_or(
            0,
        ));
    } else {
        assert(d.drop_last() =~= Seq::<char>::empty());
        assert(n % 10 == n);
        assert(d.last() == digit_char(n % 10));
        assert(digits_value(d) == digits_value(d.drop_last()) * 10 + digit_value(d.last()).unwrap_or(
            0,
        ));
    }
}

proof fn lemma_digit_round(d: nat)
    requires
        d < 10,
    ensures
        digit_value(digit_char(d)) == Some(d),
{
}

proof fn lemma_value_prefix(d: Seq<char>, k: int)
    requires
        0 <= k <= d.len(),
    ensures
        digits_value(d.take(k)) <= digits_value(d),
    decreases d.len(),
{
    if k < d.len() {
        assert(d.drop_last().take(k) =~= d.take(k));
        lemma_value_prefix(d.drop_last(), k);
    } else {
        assert(d.take(k) =~= d);
    }
}

proof fn lemma_run_end_at(t: Seq<char>, i: int, e: int, k: int)
    requires
        0 <= i <= k <= e <= t.len(),
        forall|m: int| i <= m < e ==> digit_value(#[trigger] t[m]) is Some,
        e == t.len() || digit_value(t[e]) is None,
    ensures
        digit_run_end(t, k) == e,
    decreases e - k,
{
    if k < e {
        lemma_run_end_at(t, i, e, k + 1);
    }
}

/// A count written in decimal reads back as itself.
proof fn lemma_count_at_decimal(t: Seq<char>, i: int, n: nat)
    requires
        n <= usize::MAX,
        occurs_at(t, i, decimal(n)),
        i + decimal(n).len() == t.len() || digit_value(t[i + decimal(n).len()]) is None,
    ensures
        count_at(t, i) == Some((n, i + decimal(n).len())),
{
    let d = decimal(n);
    lemma_decimal_digits(n);
    assert forall|m: int| i <= m < i + d.len() implies digit_value(#[trigger] t[m]) is Some by {
        assert(t[m] == t.subrange(i, i + d.len())[m - i]);
    }
    lemma_run_end_at(t, i, i + d.len(), i);
}


// ---------------------------------------------------------------------------
// Messages: one JSON object per message, its kind under "type"
// ---------------------------------------------------------------------------

/// The name of a device type on the wire.
pub open spec fn device_name(d: DeviceType) -> Seq<char> {
    match d {
        DeviceType::Pos => "pos"@,
        DeviceType::Kds => "kds"@,
        DeviceType::Bds => "bds"@,
        DeviceType::Manager => "manager"@,
    }
}

/// The device type with a given wire name.
pub open spec fn device_named(s: Seq<char>) -> Option<DeviceType> {
    if s == "pos"@ {
        Some(DeviceType::Pos)
    } else if s == "kds"@ {
        Some(DeviceType::Kds)
    } else if s == "bds"@ {
        Some(DeviceType::Bds)
    } else if s == "manager"@ {
        Some(DeviceType::Manager)
    } else {
        None
    }
}

/// The discriminant of a message on the wire.
pub open spec fn kind_name(m: MessageView) -> Seq<char> {
    match m {
        MessageView::OrderCreated { .. } => "order_created"@,
        MessageView::OrderStatusUpdate { .. } => "order_status_update"@,
        MessageView::SyncState { .. } => "sync_state"@,
        MessageView::Ping => "ping"@,
        MessageView::Pong => "pong"@,
        MessageView::Register { .. } => "register"@,
        MessageView::Registered { .. } => "registered"@,
        MessageView::Error { .. } => "error"@,
    }
}

/// The closing brace of an object.
pub open spec fn close() -> Seq<char> {
    seq!['}']
}

/// The elements of a list after the first, each after a comma, then `]`.
pub open spec fn list_tail(xs: Seq<Seq<char>>) -> Seq<char>
    decreases xs.len(),
{
    if xs.len() == 0 {
        seq![']']
    } else {
        seq![','] + (quoted(xs[0]) + list_tail(xs.drop_first()))
    }
}

/// The elements of a list, comma separated, then `]`.
pub open spec fn list_body(xs: Seq<Seq<char>>) -> Seq<char> {
    if xs.len() == 0 {
        seq![']']
    } else {
        quoted(xs[0]) + list_tail(xs.drop_first())
    }
}

/// The fields of a message after its discriminant, and the closing brace.
pub open spec fn fields(m: MessageView) -> Seq<char> {
    match m {
        MessageView::OrderCreated { order, kitchen_order } => ",\"order\":"@ + (quoted(order) + (
        ",\"kitchen_order\":"@ + (quoted(kitchen_order) + close()))),
        MessageView::OrderStatusUpdate { order_id, status, updated_at } => ",\"order_id\":"@ + (
        quoted(order_id) + (",\"status\":"@ + (quoted(status) + (",\"updated_at\":"@ + (quoted(
            updated_at,
        ) + close()))))),
        MessageView::SyncState { orders } => ",\"orders\":["@ + (list_body(orders) + close()),
        MessageView::Ping => close(),
        MessageView::Pong => close(),
        MessageView::Register { device_type, tenant_id } => ",\"device_type\":"@ + (quoted(
            device_name(device_type),
        ) + (",\"tenant_id\":"@ + (quoted(tenant_id) + close()))),
        MessageView::Registered { client_id, server_info } => ",\"client_id\":"@ + (quoted(
            client_id,
        ) + (",\"server_info\":{\"serverId\":"@ + (quoted(server_info.server_id) + (
        ",\"tenantId\":"@ + (quoted(server_info.tenant_id) + (",\"connectedClients\":"@ + (
        decimal(server_info.connected_clients) + (",\"serverTime\":"@ + (quoted(
            server_info.server_time,
        ) + (close() + close())))))))))),
        MessageView::Error { message, code } => ",\"message\":"@ + (quoted(message) + (
        ",\"code\":"@ + (quoted(code) + close()))),
    }
}

/// The wire form of a message.
pub open spec fn encoded(m: MessageView) -> Seq<char> {
    "{\"type\":"@ + (quoted(kind_name(m)) + fields(m))
}

/// Mathematical view of [`Decoded`].
pub enum DecodedView {
    Known(MessageView),
    UnknownKind,
    Malformed,
}

/// What decoding a frame gives.
pub enum Decoded {
    /// A message of a known kind.
    Known(LanMessage),
    /// A well-formed frame of a kind this side does not know; it is ignored.
    UnknownKind,
    /// Anything else.
    Malformed,
}

impl View for Decoded {
    type V = DecodedView;

    open spec fn view(&self) -> DecodedView {
        match self {
            Decoded::Known(m) => DecodedView::Known(m@),
            Decoded::UnknownKind => DecodedView::UnknownKind,
            Decoded::Malformed => DecodedView::Malformed,
        }
    }
}

/// The text of the field `key` at position `i`.
pub open spec fn field_at(t: Seq<char>, i: int, key: Seq<char>) -> Option<(Seq<char>, int)> {
    if occurs_at(t, i, key) {
        text_at(t, i + key.len())
    } else {
        None
    }
}

/// The message `m`, if position `i` holds the closing brace that ends the frame.
pub open spec fn finish(t: Seq<char>, i: int, m: MessageView) -> DecodedView {
    if 0 <= i && i + 1 == t.len() && t[i] == '}' {
        DecodedView::Known(m)
    } else {
        DecodedView::Malformed
    }
}

/// Reads the rest of a list: `]`, or a comma, a quoted text and the rest.
pub open spec fn list_rest(t: Seq<char>, i: int) -> Option<(Seq<Seq<char>>, int)>
    decreases t.len() - i,
{
    if i < 0 || i >= t.len() {
        None
    } else if t[i] == ']' {
        Some((Seq::empty(), i + 1))
    } else if t[i] == ',' {
        match text_at(t, i + 1) {
            Some((x, j)) => if i < j <= t.len() {
                match list_rest(t, j) {
                    Some((xs, k)) => Some((seq![x] + xs, k)),
                    None => None,
                }
            } else {
                None
            },
            None => None,
        }
    } else {
        None
    }
}

/// Reads a list of quoted texts after its opening bracket.
pub open spec fn list_at(t: Seq<char>, i: int) -> Option<(Seq<Seq<char>>, int)> {
    if 0 <= i < t.len() && t[i] == ']' {
        Some((Seq::empty(), i + 1))
    } else {
        match text_at(t, i) {
            Some((x, j)) => match list_rest(t, j) {
                Some((xs, k)) => Some((seq![x] + xs, k)),
                None => None,
            },
            None => None,
        }
    }
}

/// Decodes the fields of a message of kind `kind` that start at position `i`.
pub open spec fn decode_fields(t: Seq<char>, kind: Seq<char>, i: int) -> DecodedView {
    if kind == "ping"@ {
        finish(t, i, MessageView::Ping)
    } else if kind == "pong"@ {
        finish(t, i, MessageView::Pong)
    } else if kind == "order_created"@ {
        match field_at(t, i, ",\"order\":"@) {
            Some((order, i)) => match field_at(t, i, ",\"kitchen_order\":"@) {
                Some((kitchen_order, i)) => finish(
                    t,
                    i,
                    MessageView::OrderCreated { order, kitchen_order },
                ),
                None => DecodedView::Malformed,
            },
            None => DecodedView::Malformed,
        }
    } else if kind == "order_status_update"@ {
        match field_at(t, i, ",\"order_id\":"@) {
            Some((order_id, i)) => match field_at(t, i, ",\"status\":"@) {
                Some((status, i)) => match field_at(t, i, ",\"updated_at\":"@) {
                    Some((updated_at, i)) => finish(
                        t,
                        i,
                        MessageView::OrderStatusUpdate { order_id, status, updated_at },
                    ),
                    None => DecodedView::Malformed,
                },
                None => DecodedView::Malformed,
            },
            None => DecodedView::Malformed,
        }
    } else if kind == "sync_state"@ {
        if occurs_at(t, i, ",\"orders\":["@) {
            match list_at(t, i + ",\"orders\":["@.len()) {
                Some((orders, i)) => finish(t, i, MessageView::SyncState { orders }),
                None => DecodedView::Malformed,
            }
        } else {
            DecodedView::Malformed
        }
    } else if kind == "register"@ {
        match field_at(t, i, ",\"device_type\":"@) {
            Some((name, i)) => match device_named(name) {
                Some(device_type) => match field_at(t, i, ",\"tenant_id\":"@) {
                    Some((tenant_id, i)) => finish(
                        t,
                        i,
                        MessageView::Register { device_type, tenant_id },
                    ),
                    None => DecodedView::Malformed,
                },
                None => DecodedView::Malformed,
            },
            None => DecodedView::Malformed,
        }
    } else if kind == "registered"@ {
        match field_at(t, i, ",\"client_id\":"@) {
            Some((client_id, i)) => match field_at(t, i, ",\"server_info\":{\"serverId\":"@) {
                Some((server_id, i)) => match field_at(t, i, ",\"tenantId\":"@) {
                    Some((tenant_id, i)) => if occurs_at(t, i, ",\"connectedClients\":"@) {
                        match count_at(t, i + ",\"connectedClients\":"@.len()) {
                            Some((connected_clients, i)) => match field_at(
                                t,
                                i,
                                ",\"serverTime\":"@,
                            ) {
                                Some((server_time, i)) => if 0 <= i < t.len() && t[i] == '}' {
                                    finish(
                                        t,
                                        i + 1,
                                        MessageView::Registered {
                                            client_id,
                                            server_info: ServerInfoView {
                                                server_id,
                                                tenant_id,
                                                connected_clients,
                                                server_time,
                                            },
                                        },
                                    )
                                } else {
                                    DecodedView::Malformed
                                },
                                None => DecodedView::Malformed,
                            },
                            None => DecodedView::Malformed,
                        }
                    } else {
                        DecodedView::Malformed
                    },
                    None => DecodedView::Malformed,
                },
                None => DecodedView::Malformed,
            },
            None => DecodedView::Malformed,
        }
    } else if kind == "error"@ {
        match field_at(t, i, ",\"message\":"@) {
            Some((message, i)) => match field_at(t, i, ",\"code\":"@) {
                Some((code, i)) => finish(t, i, MessageView::Error { message, code }),
                None => DecodedView::Malformed,
            },
            None => DecodedView::Malformed,
        }
    } else {
        DecodedView::UnknownKind
    }
}

/// Decodes one frame: `Known` for a message in its wire form, `UnknownKind`
/// for a well-formed start naming a kind this side does not know, and
/// `Malformed` for anything else.
pub open spec fn decode_text(t: Seq<char>) -> DecodedView {
    if occurs_at(t, 0, "{\"type\":"@) {
        match text_at(t, "{\"type\":"@.len() as int) {
            Some((kind, i)) => decode_fields(t, kind, i),
            None => DecodedView::Malformed,
        }
    } else {
        DecodedView::Malformed
    }
}

/// `t` from position `i` on is `p`.
pub open spec fn tail_is(t: Seq<char>, i: int, p: Seq<char>) -> bool {
    0 <= i <= t.len() && t.subrange(i, t.len() as int) == p
}

proof fn lemma_split(t: Seq<char>, i: int, a: Seq<char>, b: Seq<char>)
    requires
        tail_is(t, i, a + b),
    ensures
        occurs_at(t, i, a),
        tail_is(t, i + a.len(), b),
{
    let whole = t.subrange(i, t.len() as int);
    assert(whole.len() == a.len() + b.len());
    assert(t.subrange(i, i + a.len()) =~= whole.subrange(0, a.len() as int));
    assert((a + b).subrange(0, a.len() as int) =~= a);
    assert(t.subrange(i + a.len(), t.len() as int) =~= whole.subrange(
        a.len() as int,
        whole.len() as int,
    ));
    assert((a + b).subrange(a.len() as int, (a + b).len() as int) =~= b);
}

proof fn lemma_text_tail(t: Seq<char>, i: int, s: Seq<char>, rest: Seq<char>)
    requires
        tail_is(t, i, quoted(s) + rest),
    ensures
        text_at(t, i) == Some((s, i + quoted(s).len())),
        tail_is(t, i + quoted(s).len(), rest),
{
    lemma_split(t, i, quoted(s), rest);
    lemma_text_at_quoted(t, i, s);
}

proof fn lemma_field_tail(t: Seq<char>, i: int, key: Seq<char>, s: Seq<char>, rest: Seq<char>)
    requires
        tail_is(t, i, key + (quoted(s) + rest)),
    ensures
        field_at(t, i, key) == Some((s, i + key.len() + quoted(s).len())),
        tail_is(t, i + key.len() + quoted(s).len(), rest),
{
    lemma_split(t, i, key, quoted(s) + rest);
    lemma_text_tail(t, i + key.len(), s, rest);
}

proof fn lemma_finish(t: Seq<char>, i: int, m: MessageView)
    requires
        tail_is(t, i, close()),
    ensures
        finish(t, i, m) == DecodedView::Known(m),
{
    let w = t.subrange(i, t.len() as int);
    assert(w.len() == 1);
    assert(w[0] == t[i]);
}

proof fn lemma_list_tail(t: Seq<char>, i: int, xs: Seq<Seq<char>>, rest: Seq<char>)
    requires
        tail_is(t, i, list_tail(xs) + rest),
    ensures
        list_rest(t, i) == Some((xs, i + list_tail(xs).len())),
        tail_is(t, i + list_tail(xs).len(), rest),
    decreases xs.len(),
{
    lemma_split(t, i, list_tail(xs), rest);
    assert(t[i] == t.subrange(i, t.len() as int)[0]);
    if xs.len() == 0 {
        assert(xs =~= Seq::<Seq<char>>::empty());
    } else {
        let x = xs[0];
        let more = xs.drop_first();
        assert(list_tail(xs) + rest =~= seq![','] + (quoted(x) + (list_tail(more) + rest)));
        lemma_split(t, i, seq![','], quoted(x) + (list_tail(more) + rest));
        lemma_text_tail(t, i + 1, x, list_tail(more) + rest);
        lemma_list_tail(t, i + 1 + quoted(x).len(), more, rest);
        assert(seq![x] + more =~= xs);
    }
}

proof fn lemma_list_body(t: Seq<char>, i: int, xs: Seq<Seq<char>>, rest: Seq<char>)
    requires
        tail_is(t, i, list_body(xs) + rest),
    ensures
        list_at(t, i) == Some((xs, i + list_body(xs).len())),
        tail_is(t, i + list_body(xs).len(), rest),
{
    lemma_split(t, i, list_body(xs), rest);
    assert(t[i] == t.subrange(i, t.len() as int)[0]);
    if xs.len() == 0 {
        assert(xs =~= Seq::<Seq<char>>::empty());
    } else {
        let x = xs[0];
        let more = xs.drop_first();
        assert(list_body(xs) + rest =~= quoted(x) + (list_tail(more) + rest));
        assert(quoted(x)[0] == '"');
        lemma_text_tail(t, i, x, list_tail(more) + rest);
        lemma_list_tail(t, i + quoted(x).len(), more, rest);
        assert(seq![x] + more =~= xs);
    }
}

proof fn lemma_names()
    ensures
        "ping"@.len() == 4 && "ping"@[1] == 'i',
        "pong"@.len() == 4 && "pong"@[1] == 'o',
        "order_created"@.len() == 13,
        "order_status_update"@.len() == 19,
        "sync_state"@.len() == 10 && "sync_state"@[0] == 's',
        "register"@.len() == 8,
        "registered"@.len() == 10 && "registered"@[0] == 'r',
        "error"@.len() == 5,
        "pos"@.len() == 3 && "pos"@[0] == 'p',
        "kds"@.len() == 3 && "kds"@[0] == 'k',
        "bds"@.len() == 3 && "bds"@[0] == 'b',
        "manager"@.len() == 7,
        ",\"serverTime\":"@[0] == ',',
{
    reveal_strlit("ping");
    reveal_strlit("pong");
    reveal_strlit("order_created");
    reveal_strlit("order_status_update");
    reveal_strlit("sync_state");
    reveal_strlit("register");
    reveal_strlit("registered");
    reveal_strlit("error");
    reveal_strlit("pos");
    reveal_strlit("kds");
    reveal_strlit("bds");
    reveal_strlit("manager");
    reveal_strlit(",\"serverTime\":");
}

proof fn lemma_fields_ping(t: Seq<char>, i: int, v: MessageView)
    requires
        v is Ping,
        tail_is(t, i, fields(v)),
    ensures
        decode_fields(t, kind_name(v), i) == DecodedView::Known(v),
{
    lemma_names();
    match v {
        MessageView::Ping => {
    lemma_finish(t, i, v);
        },
        _ => {},
    }
}

proof fn lemma_fields_pong(t: Seq<char>, i: int, v: MessageView)
    requires
        v is Pong,
        tail_is(t, i, fields(v)),
    ensures
        decode_fields(t, kind_name(v), i) == DecodedView::Known(v),
{
    lemma_names();
    match v {
        MessageView::Pong => {
    lemma_finish(t, i, v);
        },
        _ => {},
    }
}

proof fn lemma_fields_order_created(t: Seq<char>, i: int, v: MessageView)
    requires
        v is OrderCreated,
        tail_is(t, i, fields(v)),
    ensures
        decode_fields(t, kind_name(v), i) == DecodedView::Known(v),
{
    lemma_names();
    match v {
        MessageView::OrderCreated { order, kitchen_order } => {
    let k1 = ",\"order\":"@;
    let k2 = ",\"kitchen_order\":"@;
    lemma_field_tail(t, i, k1, order, k2 + (quoted(kitchen_order) + close()));
    let i: int = i + k1.len() + quoted(order).len();
    lemma_field_tail(t, i, k2, kitchen_order, close());
    lemma_finish(t, i + k2.len() + quoted(kitchen_order).len(), v);
        },
        _ => {},
    }
}

proof fn lemma_fields_order_status_update(t: Seq<char>, i: int, v: MessageView)
    requires
        v is OrderStatusUpdate,
        tail_is(t, i, fields(v)),
    ensures
        decode_fields(t, kind_name(v), i) == DecodedView::Known(v),
{
    lemma_names();
    match v {
        MessageView::OrderStatusUpdate { order_id, status, updated_at } => {
    let k1 = ",\"order_id\":"@;
    let k2 = ",\"status\":"@;
    let k3 = ",\"updated_at\":"@;
    lemma_field_tail(
        t,
        i,
        k1,
        order_id,
        k2 + (quoted(status) + (k3 + (quoted(updated_at) + close()))),
    );
    let i: int = i + k1.len() + quoted(order_id).len();
    lemma_field_tail(t, i, k2, status, k3 + (quoted(updated_at) + close()));
    let i: int = i + k2.len() + quoted(status).len();
    lemma_field_tail(t, i, k3, updated_at, close());
    lemma_finish(t, i + k3.len() + quoted(updated_at).len(), v);
        },
        _ => {},
    }
}

proof fn lemma_fields_sync_state(t: Seq<char>, i: int, v: MessageView)
    requires
        v is SyncState,
        tail_is(t, i, fields(v)),
    ensures
        decode_fields(t, kind_name(v), i) == DecodedView::Known(v),
{
    lemma_names();
    match v {
        MessageView::SyncState { orders } => {
    let k1 = ",\"orders\":["@;
    lemma_split(t, i, k1, list_body(orders) + close());
    lemma_list_body(t, i + k1.len(), orders, close());
    lemma_finish(t, i + k1.len() + list_body(orders).len(), v);
        },
        _ => {},
    }
}

proof fn lemma_fields_register(t: Seq<char>, i: int, v: MessageView)
    requires
        v is Register,
        tail_is(t, i, fields(v)),
    ensures
        decode_fields(t, kind_name(v), i) == DecodedView::Known(v),
{
    lemma_names();
    match v {
        MessageView::Register { device_type, tenant_id } => {
    let k1 = ",\"device_type\":"@;
    let k2 = ",\"tenant_id\":"@;
    lemma_field_tail(
        t,
        i,
        k1,
        device_name(device_type),
        k2 + (quoted(tenant_id) + close()),
    );
    let i: int = i + k1.len() + quoted(device_name(device_type)).len();
    lemma_field_tail(t, i, k2, tenant_id, close());
    lemma_finish(t, i + k2.len() + quoted(tenant_id).len(), v);
        },
        _ => {},
    }
}

proof fn lemma_fields_registered(t: Seq<char>, i: int, v: MessageView)
    requires
        v is Registered,
        tail_is(t, i, fields(v)),
        v->Registered_server_info.connected_clients <= usize::MAX,
    ensures
        decode_fields(t, kind_name(v), i) == DecodedView::Known(v),
{
    lemma_names();
    match v {
        MessageView::Registered { client_id, server_info } => {
    let k1 = ",\"client_id\":"@;
    let k2 = ",\"server_info\":{\"serverId\":"@;
    let k3 = ",\"tenantId\":"@;
    let k4 = ",\"connectedClients\":"@;
    let k5 = ",\"serverTime\":"@;
    let n = server_info.connected_clients;
    let tail5 = k5 + (quoted(server_info.server_time) + (close() + close()));
    let tail4 = k4 + (decimal(n) + tail5);
    let tail3 = k3 + (quoted(server_info.tenant_id) + tail4);
    let tail2 = k2 + (quoted(server_info.server_id) + tail3);
    lemma_field_tail(t, i, k1, client_id, tail2);
    let i: int = i + k1.len() + quoted(client_id).len();
    lemma_field_tail(t, i, k2, server_info.server_id, tail3);
    let i: int = i + k2.len() + quoted(server_info.server_id).len();
    lemma_field_tail(t, i, k3, server_info.tenant_id, tail4);
    let i: int = i + k3.len() + quoted(server_info.tenant_id).len();
    lemma_split(t, i, k4, decimal(n) + tail5);
    let i: int = i + k4.len();
    lemma_split(t, i, decimal(n), tail5);
    assert(t[i + decimal(n).len()] == t.subrange(i + decimal(n).len(), t.len() as int)[0]);
    lemma_count_at_decimal(t, i, n);
    let i: int = i + decimal(n).len();
    lemma_field_tail(t, i, k5, server_info.server_time, close() + close());
    let i: int = i + k5.len() + quoted(server_info.server_time).len();
    lemma_split(t, i, close(), close());
    assert(t[i] == t.subrange(i, t.len() as int)[0]);
    lemma_finish(t, i + 1, v);
        },
        _ => {},
    }
}

proof fn lemma_fields_error(t: Seq<char>, i: int, v: MessageView)
    requires
        v is Error,
        tail_is(t, i, fields(v)),
    ensures
        decode_fields(t, kind_name(v), i) == DecodedView::Known(v),
{
    lemma_names();
    match v {
        MessageView::Error { message, code } => {
    let k1 = ",\"message\":"@;
    let k2 = ",\"code\":"@;
    lemma_field_tail(t, i, k1, message, k2 + (quoted(code) + close()));
    let i: int = i + k1.len() + quoted(message).len();
    lemma_field_tail(t, i, k2, code, close());
    lemma_finish(t, i + k2.len() + quoted(code).len(), v);
        },
        _ => {},
    }
}

/// Decoding the wire form of a message gives the message back.
pub proof fn lemma_round_trip(m: LanMessage)
    ensures
        decode_text(encoded(m@)) == DecodedView::Known(m@),
{
    let v = m@;
    let t = encoded(v);
    let head = "{\"type\":"@;
    assert(t.subrange(0, t.len() as int) =~= t);
    lemma_split(t, 0, head, quoted(kind_name(v)) + fields(v));
    lemma_text_tail(t, head.len() as int, kind_name(v), fields(v));
    let i: int = (head.len() + quoted(kind_name(v)).len()) as int;
    match v {
        MessageView::Ping => lemma_fields_ping(t, i, v),
        MessageView::Pong => lemma_fields_pong(t, i, v),
        MessageView::OrderCreated { .. } => lemma_fields_order_created(t, i, v),
        MessageView::OrderStatusUpdate { .. } => lemma_fields_order_status_update(t, i, v),
        MessageView::SyncState { .. } => lemma_fields_sync_state(t, i, v),
        MessageView::Register { .. } => lemma_fields_register(t, i, v),
        MessageView::Registered { .. } => lemma_fields_registered(t, i, v),
        MessageView::Error { .. } => lemma_fields_error(t, i, v),
    }
}

proof fn lemma_sub_concat(t: Seq<char>, a: int, b: int, c: int)
    requires
        0 <= a <= b <= c <= t.len(),
    ensures
        t.subrange(a, c) == t.subrange(a, b) + t.subrange(b, c),
{
    assert(t.subrange(a, c) =~= t.subrange(a, b) + t.subrange(b, c));
}

proof fn lemma_scan_sound(t: Seq<char>, i: int)
    requires
        scan_text(t, i) is Some,
    ensures
        i < (scan_text(t, i)->0).1 <= t.len(),
        t.subrange(i, (scan_text(t, i)->0).1) == escaped((scan_text(t, i)->0).0).push('"'),
    decreases t.len() - i,
{
    let (s, j) = scan_text(t, i)->0;
    if t[i] == '"' {
        assert(t.subrange(i, j) =~= escaped(s).push('"'));
    } else if t[i] == '\\' && !(i + 1 < t.len() && unescape_code(t[i + 1]) is Some) {
        let d = unicode_at(t, i)->0;
        lemma_unicode_sound(t, i);
        lemma_scan_sound(t, i + 6);
        let (s2, j2) = scan_text(t, i + 6)->0;
        assert(s.drop_first() =~= s2);
        lemma_sub_concat(t, i, i + 6, j);
        assert(escaped(s).push('"') =~= esc_char(d) + escaped(s2).push('"'));
    } else if t[i] == '\\' {
        let d = unescape_code(t[i + 1])->0;
        lemma_scan_sound(t, i + 2);
        let (s2, j2) = scan_text(t, i + 2)->0;
        assert(s.drop_first() =~= s2);
        assert(esc_char(d) =~= seq![t[i], t[i + 1]]);
        lemma_sub_concat(t, i, i + 2, j);
        assert(t.subrange(i, i + 2) =~= seq![t[i], t[i + 1]]);
        assert(escaped(s).push('"') =~= esc_char(d) + escaped(s2).push('"'));
    } else {
        lemma_scan_sound(t, i + 1);
        let (s2, j2) = scan_text(t, i + 1)->0;
        assert(s.drop_first() =~= s2);
        assert(esc_char(t[i]) =~= seq![t[i]]);
        lemma_sub_concat(t, i, i + 1, j);
        assert(t.subrange(i, i + 1) =~= seq![t[i]]);
        assert(escaped(s).push('"') =~= esc_char(t[i]) + escaped(s2).push('"'));
    }
}

proof fn lemma_text_sound(t: Seq<char>, i: int)
    requires
        text_at(t, i) is Some,
    ensures
        i < (text_at(t, i)->0).1 <= t.len(),
        t.subrange(i, (text_at(t, i)->0).1) == quoted((text_at(t, i)->0).0),
{
    lemma_scan_sound(t, i + 1);
    let (s, j) = text_at(t, i)->0;
    lemma_sub_concat(t, i, i + 1, j);
    assert(t.subrange(i, i + 1) =~= seq!['"']);
    assert(quoted(s) =~= seq!['"'] + escaped(s).push('"'));
}

proof fn lemma_field_sound(t: Seq<char>, i: int, key: Seq<char>)
    requires
        field_at(t, i, key) is Some,
    ensures
        i < (field_at(t, i, key)->0).1 <= t.len(),
        t.subrange(i, (field_at(t, i, key)->0).1) == key + quoted((field_at(t, i, key)->0).0),
{
    lemma_text_sound(t, i + key.len());
    lemma_sub_concat(t, i, i + key.len(), (field_at(t, i, key)->0).1);
}

proof fn lemma_finish_sound(t: Seq<char>, i: int, m: MessageView, n: MessageView)
    requires
        finish(t, i, m) == DecodedView::Known(n),
    ensures
        m == n,
        t.subrange(i, t.len() as int) == close(),
{
    assert(t.subrange(i, t.len() as int) =~= close());
}

proof fn lemma_list_rest_sound(t: Seq<char>, i: int)
    requires
        list_rest(t, i) is Some,
    ensures
        i < (list_rest(t, i)->0).1 <= t.len(),
        t.subrange(i, (list_rest(t, i)->0).1) == list_tail((list_rest(t, i)->0).0),
    decreases t.len() - i,
{
    let (xs, k) = list_rest(t, i)->0;
    if t[i] == ']' {
        assert(t.subrange(i, k) =~= seq![']']);
    } else {
        lemma_text_sound(t, i + 1);
        let (x, j) = text_at(t, i + 1)->0;
        lemma_list_rest_sound(t, j);
        let (ys, e) = list_rest(t, j)->0;
        assert(xs.drop_first() =~= ys);
        lemma_sub_concat(t, i, i + 1, k);
        lemma_sub_concat(t, i + 1, j, k);
        assert(t.subrange(i, i + 1) =~= seq![',']);
    }
}

proof fn lemma_list_sound(t: Seq<char>, i: int)
    requires
        0 <= i,
        list_at(t, i) is Some,
    ensures
        i < (list_at(t, i)->0).1 <= t.len(),
        t.subrange(i, (list_at(t, i)->0).1) == list_body((list_at(t, i)->0).0),
{
    let (xs, k) = list_at(t, i)->0;
    if 0 <= i < t.len() && t[i] == ']' {
        assert(t.subrange(i, k) =~= seq![']']);
    } else {
        lemma_text_sound(t, i);
        let (x, j) = text_at(t, i)->0;
        lemma_list_rest_sound(t, j);
        let (ys, e) = list_rest(t, j)->0;
        assert(xs.drop_first() =~= ys);
        lemma_sub_concat(t, i, j, k);
    }
}

proof fn lemma_fields_sound_ping(t: Seq<char>, kind: Seq<char>, i: int, m: MessageView)
    requires
        0 <= i <= t.len(),
        kind == "ping"@,
        decode_fields(t, kind, i) == DecodedView::Known(m),
    ensures
        kind == kind_name(m),
        t.subrange(i, t.len() as int) == fields(m),
{
    lemma_names();
    lemma_finish_sound(t, i, MessageView::Ping, m);
}

proof fn lemma_fields_sound_pong(t: Seq<char>, kind: Seq<char>, i: int, m: MessageView)
    requires
        0 <= i <= t.len(),
        kind == "pong"@,
        decode_fields(t, kind, i) == DecodedView::Known(m),
    ensures
        kind == kind_name(m),
        t.subrange(i, t.len() as int) == fields(m),
{
    lemma_names();
    lemma_finish_sound(t, i, MessageView::Pong, m);
}

proof fn lemma_fields_sound_order_created(t: Seq<char>, kind: Seq<char>, i: int, m: MessageView)
    requires
        0 <= i <= t.len(),
        kind == "order_created"@,
        decode_fields(t, kind, i) == DecodedView::Known(m),
    ensures
        kind == kind_name(m),
        t.subrange(i, t.len() as int) == fields(m),
{
    lemma_names();
    let n = t.len() as int;
    let k1 = ",\"order\":"@;
    let k2 = ",\"kitchen_order\":"@;
    lemma_field_sound(t, i, k1);
    let (order, i1) = field_at(t, i, k1)->0;
    lemma_field_sound(t, i1, k2);
    let (kitchen_order, i2) = field_at(t, i1, k2)->0;
    lemma_finish_sound(t, i2, MessageView::OrderCreated { order, kitchen_order }, m);
    lemma_sub_concat(t, i1, i2, n);
    lemma_sub_concat(t, i, i1, n);
    assert(fields(m) =~= (k1 + quoted(order)) + ((k2 + quoted(kitchen_order)) + close()));
}

proof fn lemma_fields_sound_order_status_update(t: Seq<char>, kind: Seq<char>, i: int, m: MessageView)
    requires
        0 <= i <= t.len(),
        kind == "order_status_update"@,
        decode_fields(t, kind, i) == DecodedView::Known(m),
    ensures
        kind == kind_name(m),
        t.subrange(i, t.len() as int) == fields(m),
{
    lemma_names();
    let n = t.len() as int;
    let k1 = ",\"order_id\":"@;
    let k2 = ",\"status\":"@;
    let k3 = ",\"updated_at\":"@;
    lemma_field_sound(t, i, k1);
    let (order_id, i1) = field_at(t, i, k1)->0;
    lemma_field_sound(t, i1, k2);
    let (status, i2) = field_at(t, i1, k2)->0;
    lemma_field_sound(t, i2, k3);
    let (updated_at, i3) = field_at(t, i2, k3)->0;
    lemma_finish_sound(
        t,
        i3,
        MessageView::OrderStatusUpdate { order_id, status, updated_at },
        m,
    );
    lemma_sub_concat(t, i2, i3, n);
    lemma_sub_concat(t, i1, i2, n);
    lemma_sub_concat(t, i, i1, n);
    assert(fields(m) =~= (k1 + quoted(order_id)) + ((k2 + quoted(status)) + ((k3 + quoted(
        updated_at,
    )) + close())));
}

proof fn lemma_fields_sound_sync_state(t: Seq<char>, kind: Seq<char>, i: int, m: MessageView)
    requires
        0 <= i <= t.len(),
        kind == "sync_state"@,
        decode_fields(t, kind, i) == DecodedView::Known(m),
    ensures
        kind == kind_name(m),
        t.subrange(i, t.len() as int) == fields(m),
{
    lemma_names();
    let n = t.len() as int;
    let k1 = ",\"orders\":["@;
    let i1 = i + k1.len();
    lemma_list_sound(t, i1);
    let (orders, i2) = list_at(t, i1)->0;
    lemma_finish_sound(t, i2, MessageView::SyncState { orders }, m);
    lemma_sub_concat(t, i1, i2, n);
    lemma_sub_concat(t, i, i1, n);
    assert(fields(m) =~= k1 + (list_body(orders) + close()));
}

proof fn lemma_fields_sound_register(t: Seq<char>, kind: Seq<char>, i: int, m: MessageView)
    requires
        0 <= i <= t.len(),
        kind == "register"@,
        decode_fields(t, kind, i) == DecodedView::Known(m),
    ensures
        kind == kind_name(m),
        t.subrange(i, t.len() as int) == fields(m),
{
    lemma_names();
    let n = t.len() as int;
    let k1 = ",\"device_type\":"@;
    let k2 = ",\"tenant_id\":"@;
    lemma_field_sound(t, i, k1);
    let (name, i1) = field_at(t, i, k1)->0;
    let d = device_named(name)->0;
    assert(device_name(d) == name);
    lemma_field_sound(t, i1, k2);
    let (tenant_id, i2) = field_at(t, i1, k2)->0;
    lemma_finish_sound(t, i2, MessageView::Register { device_type: d, tenant_id }, m);
    lemma_sub_concat(t, i1, i2, n);
    lemma_sub_concat(t, i, i1, n);
    assert(fields(m) =~= (k1 + quoted(name)) + ((k2 + quoted(tenant_id)) + close()));
}

proof fn lemma_fields_sound_registered(t: Seq<char>, kind: Seq<char>, i: int, m: MessageView)
    requires
        0 <= i <= t.len(),
        kind == "registered"@,
        decode_fields(t, kind, i) == DecodedView::Known(m),
    ensures
        kind == kind_name(m),
        t.subrange(i, t.len() as int) == fields(m),
{
    lemma_names();
    let n = t.len() as int;
    let k1 = ",\"client_id\":"@;
    let k2 = ",\"server_info\":{\"serverId\":"@;
    let k3 = ",\"tenantId\":"@;
    let k4 = ",\"connectedClients\":"@;
    let k5 = ",\"serverTime\":"@;
    lemma_field_sound(t, i, k1);
    let (client_id, i1) = field_at(t, i, k1)->0;
    lemma_field_sound(t, i1, k2);
    let (server_id, i2) = field_at(t, i1, k2)->0;
    lemma_field_sound(t, i2, k3);
    let (tenant_id, i3) = field_at(t, i2, k3)->0;
    let i4 = i3 + k4.len();
    let (count, i5) = count_at(t, i4)->0;
    lemma_field_sound(t, i5, k5);
    let (server_time, i6) = field_at(t, i5, k5)->0;
    let info = ServerInfoView {
        server_id,
        tenant_id,
        connected_clients: count,
        server_time,
    };
    lemma_finish_sound(
        t,
        i6 + 1,
        MessageView::Registered { client_id, server_info: info },
        m,
    );
    lemma_sub_concat(t, i6, i6 + 1, n);
    assert(t.subrange(i6, i6 + 1) =~= close());
    lemma_sub_concat(t, i5, i6, n);
    lemma_sub_concat(t, i4, i5, n);
    lemma_sub_concat(t, i3, i4, n);
    lemma_sub_concat(t, i2, i3, n);
    lemma_sub_concat(t, i1, i2, n);
    lemma_sub_concat(t, i, i1, n);
    assert(fields(m) =~= (k1 + quoted(client_id)) + ((k2 + quoted(server_id)) + ((k3 + quoted(
        tenant_id,
    )) + (k4 + (decimal(count) + ((k5 + quoted(server_time)) + (close() + close())))))));
}

proof fn lemma_fields_sound_error(t: Seq<char>, kind: Seq<char>, i: int, m: MessageView)
    requires
        0 <= i <= t.len(),
        kind == "error"@,
        decode_fields(t, kind, i) == DecodedView::Known(m),
    ensures
        kind == kind_name(m),
        t.subrange(i, t.len() as int) == fields(m),
{
    lemma_names();
    let n = t.len() as int;
    let k1 = ",\"message\":"@;
    let k2 = ",\"code\":"@;
    lemma_field_sound(t, i, k1);
    let (message, i1) = field_at(t, i, k1)->0;
    lemma_field_sound(t, i1, k2);
    let (code, i2) = field_at(t, i1, k2)->0;
    lemma_finish_sound(t, i2, MessageView::Error { message, code }, m);
    lemma_sub_concat(t, i1, i2, n);
    lemma_sub_concat(t, i, i1, n);
    assert(fields(m) =~= (k1 + quoted(message)) + ((k2 + quoted(code)) + close()));
}

proof fn lemma_fields_sound(t: Seq<char>, kind: Seq<char>, i: int, m: MessageView)
    requires
        0 <= i <= t.len(),
        decode_fields(t, kind, i) == DecodedView::Known(m),
    ensures
        kind == kind_name(m),
        t.subrange(i, t.len() as int) == fields(m),
{
    if kind == "ping"@ {
        lemma_fields_sound_ping(t, kind, i, m);
    } else if kind == "pong"@ {
        lemma_fields_sound_pong(t, kind, i, m);
    } else if kind == "order_created"@ {
        lemma_fields_sound_order_created(t, kind, i, m);
    } else if kind == "order_status_update"@ {
        lemma_fields_sound_order_status_update(t, kind, i, m);
    } else if kind == "sync_state"@ {
        lemma_fields_sound_sync_state(t, kind, i, m);
    } else if kind == "register"@ {
        lemma_fields_sound_register(t, kind, i, m);
    } else if kind == "registered"@ {
        lemma_fields_sound_registered(t, kind, i, m);
    } else if kind == "error"@ {
        lemma_fields_sound_error(t, kind, i, m);
    }
}

/// A frame decodes to a known message only when it is that message's wire
/// form: the decoder accepts nothing but what the encoder writes.
pub proof fn lemma_decoded_is_encoded(t: Seq<char>, m: MessageView)
    requires
        decode_text(t) == DecodedView::Known(m),
    ensures
        t == encoded(m),
{
    let head = "{\"type\":"@;
    lemma_text_sound(t, head.len() as int);
    let (kind, i) = text_at(t, head.len() as int)->0;
    lemma_fields_sound(t, kind, i, m);
    let n = t.len() as int;
    lemma_sub_concat(t, head.len() as int, i, n);
    lemma_sub_concat(t, 0, head.len() as int, n);
    assert(t.subrange(0, n) =~= t);
}

// ---------------------------------------------------------------------------
// Executable helpers
// ---------------------------------------------------------------------------



fn push_quoted(out: &mut Vec<char>, s: &str)
    ensures
        final(out)@ == old(out)@ + quoted(s@),
{
    let v = chars_of(s);
    out.push('"');
    let ghost start = out@;
    let mut k: usize = 0;
    while k < v.len()
        invariant
            k <= v.len(),
            v@ == s@,
            start == old(out)@.push('"'),
            out@ == start + escaped(v@.take(k as int)),
        decreases v.len() - k,
    {
        let c = v[k];
        proof {
            assert(v@.take(k + 1) =~= v@.take(k as int).push(c));
            lemma_escaped_append(v@.take(k as int), c);
        }
        if c == '"' {
            out.push('\\');
            out.push('"');
        } else if c == '\\' {
            out.push('\\');
            out.push('\\');
        } else if c == '\n' {
            out.push('\\');
            out.push('n');
        } else if c == '\r' {
            out.push('\\');
            out.push('r');
        } else if c == '\t' {
            out.push('\\');
            out.push('t');
        } else if (c as u32) < 32 {
            let n = c as u32;
            out.push('\\');
            out.push('u');
            out.push('0');
            out.push('0');
            out.push(hex_of(n / 16));
            out.push(hex_of(n % 16));
        } else {
            out.push(c);
        }
        k = k + 1;
    }
    out.push('"');
    assert(v@.take(k as int) =~= s@);
    assert(out@ =~= old(out)@ + quoted(s@));
}

fn hex_of(d: u32) -> (r: char)
    requires
        d < 16,
    ensures
        r == hex_char(d as nat),
{
    if d < 10 {
        char_of_digit(d as u64)
    } else if d == 10 {
        'a'
    } else if d == 11 {
        'b'
    } else if d == 12 {
        'c'
    } else if d == 13 {
        'd'
    } else if d == 14 {
        'e'
    } else {
        'f'
    }
}

fn hex_value_of(c: char) -> (r: Option<u32>)
    ensures
        match r {
            Some(d) => hex_value(c) == Some(d as nat),
            None => hex_value(c) is None,
        },
{
    match digit_of(c) {
        Some(d) => Some(d as u32),
        None => {
            if c == 'a' {
                Some(10)
            } else if c == 'b' {
                Some(11)
            } else if c == 'c' {
                Some(12)
            } else if c == 'd' {
                Some(13)
            } else if c == 'e' {
                Some(14)
            } else if c == 'f' {
                Some(15)
            } else {
                None
            }
        },
    }
}

/// Reads the escape that starts with the backslash at position `k`: the
/// character and the width of the escape.
fn read_escape(t: &Vec<char>, k: usize) -> (r: Option<(char, usize)>)
    requires
        k < t.len(),
        t@[k as int] == '\\',
    ensures
        match r {
            Some((d, w)) => (w == 2 || w == 6) && k + w <= t.len() && scan_text(t@, k as int) == (match scan_text(
                t@,
                k + w,
            ) {
                Some((s, j)) => Some((seq![d] + s, j)),
                None => None,
            }),
            None => scan_text(t@, k as int) is None,
        },
{
    if k + 1 >= t.len() {
        return None;
    }
    let e = t[k + 1];
    if e == '"' {
        return Some(('"', 2));
    } else if e == '\\' {
        return Some(('\\', 2));
    } else if e == 'n' {
        return Some(('\n', 2));
    } else if e == 'r' {
        return Some(('\r', 2));
    } else if e == 't' {
        return Some(('\t', 2));
    }
    if e != 'u' || t.len() - k < 6 || t[k + 2] != '0' || t[k + 3] != '0' {
        return None;
    }
    let hi = match hex_value_of(t[k + 4]) {
        Some(h) => h,
        None => return None,
    };
    let lo = match hex_value_of(t[k + 5]) {
        Some(l) => l,
        None => return None,
    };
    let code = hi * 16 + lo;
    if code >= 32 {
        return None;
    }
    let d = (code as u8) as char;
    if d == '\n' || d == '\r' || d == '\t' {
        return None;
    }
    assert(d as u32 == code);
    Some((d, 6))
}

fn read_raw(t: &Vec<char>, i: usize) -> (r: Option<(Vec<char>, usize)>)
    ensures
        match r {
            Some((s, j)) => text_at(t@, i as int) == Some((s@, j as int)) && i < j <= t.len(),
            None => text_at(t@, i as int) is None,
        },
{
    if i >= t.len() || t[i] != '"' {
        return None;
    }
    let mut acc: Vec<char> = Vec::new();
    let mut k: usize = i + 1;
    while k < t.len()
        invariant
            i + 1 <= k <= t.len(),
            text_at(t@, i as int) == (match scan_text(t@, k as int) {
                Some((s, j)) => Some((acc@ + s, j)),
                None => None,
            }),
        decreases t.len() - k,
    {
        let c = t[k];
        if c == '"' {
            assert(acc@ + Seq::<char>::empty() =~= acc@);
            return Some((acc, k + 1));
        } else if c == '\\' {
            let (d, w) = match read_escape(t, k) {
                Some(x) => x,
                None => return None,
            };
            proof {
                let ghost nx = scan_text(t@, k + w);
                if let Some((s, j)) = nx {
                    assert(acc@.push(d) + s =~= acc@ + (seq![d] + s));
                }
            }
            acc.push(d);
            k = k + w;
        } else if (c as u32) < 32 {
            return None;
        } else {
            proof {
                let ghost nx = scan_text(t@, k + 1);
                if let Some((s, j)) = nx {
                    assert(acc@.push(c) + s =~= acc@ + (seq![c] + s));
                }
            }
            acc.push(c);
            k = k + 1;
        }
    }
    None
}

fn lit_at(t: &Vec<char>, i: usize, p: &str) -> (r: Option<usize>)
    ensures
        match r {
            Some(j) => occurs_at(t@, i as int, p@) && j == i + p@.len(),
            None => !occurs_at(t@, i as int, p@),
        },
{
    let v = chars_of(p);
    if i > t.len() || v.len() > t.len() - i {
        return None;
    }
    let mut k: usize = 0;
    while k < v.len()
        invariant
            k <= v.len(),
            v@ == p@,
            i + v.len() <= t.len(),
            t@.subrange(i as int, i + k) == v@.take(k as int),
        decreases v.len() - k,
    {
        if t[i + k] != v[k] {
            assert(t@.subrange(i as int, i + v.len())[k as int] != v@[k as int]);
            return None;
        }
        k = k + 1;
        assert(t@.subrange(i as int, i + k) =~= v@.take(k as int));
    }
    assert(v@.take(k as int) =~= v@);
    Some(i + v.len())
}


fn digit_of(c: char) -> (r: Option<usize>)
    ensures
        match r {
            Some(d) => digit_value(c) == Some(d as nat),
            None => digit_value(c) is None,
        },
{
    if c == '0' {
        Some(0)
    } else if c == '1' {
        Some(1)
    } else if c == '2' {
        Some(2)
    } else if c == '3' {
        Some(3)
    } else if c == '4' {
        Some(4)
    } else if c == '5' {
        Some(5)
    } else if c == '6' {
        Some(6)
    } else if c == '7' {
        Some(7)
    } else if c == '8' {
        Some(8)
    } else if c == '9' {
        Some(9)
    } else {
        None
    }
}

fn char_of_digit(d: u64) -> (r: char)
    requires
        d < 10,
    ensures
        r == digit_char(d as nat),
{
    if d == 0 {
        '0'
    } else if d == 1 {
        '1'
    } else if d == 2 {
        '2'
    } else if d == 3 {
        '3'
    } else if d == 4 {
        '4'
    } else if d == 5 {
        '5'
    } else if d == 6 {
        '6'
    } else if d == 7 {
        '7'
    } else if d == 8 {
        '8'
    } else {
        '9'
    }
}

pub(crate) fn push_decimal(out: &mut Vec<char>, n: u64)
    ensures
        final(out)@ == old(out)@ + decimal(n as nat),
    decreases n,
{
    if n >= 10 {
        push_decimal(out, n / 10);
    }
    let c = char_of_digit(n % 10);
    out.push(c);
    proof {
        if n >= 10 {
            assert(final(out)@ =~= old(out)@ + decimal(n as nat));
        } else {
            assert(final(out)@ =~= old(out)@ + decimal(n as nat));
        }
    }
}

fn read_count(t: &Vec<char>, i: usize) -> (r: Option<(usize, usize)>)
    ensures
        match r {
            Some((n, j)) => count_at(t@, i as int) == Some((n as nat, j as int)),
            None => count_at(t@, i as int) is None,
        },
{
    if i > t.len() {
        return None;
    }
    proof {
        lemma_digit_run_end_bounds(t@, i as int);
    }
    let ghost e = digit_run_end(t@, i as int);
    let mut acc: usize = 0;
    let mut k: usize = i;
    while k < t.len() && digit_of(t[k]).is_some()
        invariant
            i <= k <= e <= t.len(),
            e == digit_run_end(t@, i as int),
            e == digit_run_end(t@, k as int),
            forall|m: int| i <= m < e ==> digit_value(#[trigger] t@[m]) is Some,
            acc == digits_value(t@.subrange(i as int, k as int)),
        decreases t.len() - k,
    {
        let d = match digit_of(t[k]) {
            Some(d) => d,
            None => 0,
        };
        let ghost run = t@.subrange(i as int, e);
        proof {
            lemma_digit_run_end_bounds(t@, k + 1);
            assert(digit_run_end(t@, k as int) == digit_run_end(t@, k + 1));
            assert(t@.subrange(i as int, k + 1).drop_last() =~= t@.subrange(i as int, k as int));
            assert(run.take(k + 1 - i) =~= t@.subrange(i as int, k + 1));
            lemma_value_prefix(run, k + 1 - i);
        }
        if acc > (usize::MAX - d) / 10 {
            assert(acc * 10 + d > usize::MAX) by (nonlinear_arith)
                requires
                    acc > (usize::MAX - d) / 10,
                    d < 10,
            ;
            return None;
        }
        assert(acc * 10 + d <= usize::MAX) by (nonlinear_arith)
            requires
                acc <= (usize::MAX - d) / 10,
                d < 10,
        ;
        acc = acc * 10 + d;
        k = k + 1;
    }
    if k == i {
        return None;
    }
    let mut buf: Vec<char> = Vec::new();
    push_decimal(&mut buf, acc as u64);
    assert(buf@ =~= decimal(acc as nat));
    if buf.len() != k - i {
        return None;
    }
    let mut m: usize = 0;
    while m < buf.len()
        invariant
            m <= buf.len(),
            buf.len() == k - i,
            i < k,
            buf@ == decimal(acc as nat),
            acc as nat == digits_value(t@.subrange(i as int, k as int)),
            k == digit_run_end(t@, i as int),
            k <= t.len(),
            buf@.take(m as int) == t@.subrange(i as int, i + m),
        decreases buf.len() - m,
    {
        if buf[m] != t[i + m] {
            assert(buf@[m as int] != t@.subrange(i as int, k as int)[m as int]);
            assert(buf@ != t@.subrange(i as int, k as int));
            return None;
        }
        m = m + 1;
        assert(buf@.take(m as int) =~= t@.subrange(i as int, i + m));
    }
    assert(buf@.take(m as int) =~= buf@);
    Some((acc, k))
}

fn same_text(a: &Vec<char>, p: &str) -> (r: bool)
    ensures
        r == (a@ == p@),
{
    let v = chars_of(p);
    if a.len() != v.len() {
        return false;
    }
    let mut k: usize = 0;
    while k < a.len()
        invariant
            k <= a.len(),
            a.len() == v.len(),
            v@ == p@,
            a@.take(k as int) == v@.take(k as int),
        decreases a.len() - k,
    {
        if a[k] != v[k] {
            assert(a@[k as int] != v@[k as int]);
            return false;
        }
        k = k + 1;
        assert(a@.take(k as int) =~= v@.take(k as int));
    }
    assert(a@ =~= a@.take(k as int));
    assert(v@ =~= v@.take(k as int));
    true
}

fn field(t: &Vec<char>, i: usize, key: &str) -> (r: Option<(String, usize)>)
    ensures
        match r {
            Some((s, j)) => field_at(t@, i as int, key@) == Some((s@, j as int)),
            None => field_at(t@, i as int, key@) is None,
        },
{
    match lit_at(t, i, key) {
        Some(j) => match read_raw(t, j) {
            Some((v, k)) => Some((string_of(&v), k)),
            None => None,
        },
        None => None,
    }
}

fn finish_with(t: &Vec<char>, i: usize, m: LanMessage) -> (r: Decoded)
    ensures
        r@ == finish(t@, i as int, m@),
{
    if i < t.len() && i + 1 == t.len() && t[i] == '}' {
        Decoded::Known(m)
    } else {
        Decoded::Malformed
    }
}

fn read_list(t: &Vec<char>, i: usize) -> (r: Option<(Vec<String>, usize)>)
    ensures
        match r {
            Some((xs, j)) => list_at(t@, i as int) == Some((texts(xs@), j as int)),
            None => list_at(t@, i as int) is None,
        },
{
    let mut acc: Vec<String> = Vec::new();
    if i < t.len() && t[i] == ']' {
        assert(texts(acc@) =~= Seq::<Seq<char>>::empty());
        return Some((acc, i + 1));
    }
    let mut k: usize = match read_raw(t, i) {
        Some((v, j)) => {
            let s = string_of(&v);
            acc.push(s);
            j
        },
        None => return None,
    };
    assert(texts(acc@) =~= seq![texts(acc@)[0]]);
    while k < t.len()
        invariant
            k <= t.len(),
            list_at(t@, i as int) == (match list_rest(t@, k as int) {
                Some((xs, j)) => Some((texts(acc@) + xs, j)),
                None => None,
            }),
        decreases t.len() - k,
    {
        if t[k] == ']' {
            assert(texts(acc@) + Seq::<Seq<char>>::empty() =~= texts(acc@));
            return Some((acc, k + 1));
        } else if t[k] == ',' {
            match read_raw(t, k + 1) {
                Some((v, j)) => {
                    if j <= k || j > t.len() {
                        return None;
                    }
                    let s = string_of(&v);
                    proof {
                        let ghost nx = list_rest(t@, j as int);
                        if let Some((xs, e)) = nx {
                            assert(texts(acc@.push(s)) + xs =~= texts(acc@) + (seq![s@] + xs));
                        }
                    }
                    acc.push(s);
                    k = j;
                },
                None => return None,
            }
        } else {
            return None;
        }
    }
    None
}

fn device_from_name(s: &Vec<char>) -> (r: Option<DeviceType>)
    ensures
        r == device_named(s@),
{
    if same_text(s, "pos") {
        Some(DeviceType::Pos)
    } else if same_text(s, "kds") {
        Some(DeviceType::Kds)
    } else if same_text(s, "bds") {
        Some(DeviceType::Bds)
    } else if same_text(s, "manager") {
        Some(DeviceType::Manager)
    } else {
        None
    }
}

fn decode_body(t: &Vec<char>, kind: &Vec<char>, i: usize) -> (r: Decoded)
    ensures
        r@ == decode_fields(t@, kind@, i as int),
{
    if same_text(kind, "ping") {
        finish_with(t, i, LanMessage::Ping)
    } else if same_text(kind, "pong") {
        finish_with(t, i, LanMessage::Pong)
    } else if same_text(kind, "order_created") {
        let (order, i) = match field(t, i, ",\"order\":") {
            Some(x) => x,
            None => return Decoded::Malformed,
        };
        let (kitchen_order, i) = match field(t, i, ",\"kitchen_order\":") {
            Some(x) => x,
            None => return Decoded::Malformed,
        };
        finish_with(t, i, LanMessage::OrderCreated { order, kitchen_order })
    } else if same_text(kind, "order_status_update") {
        let (order_id, i) = match field(t, i, ",\"order_id\":") {
            Some(x) => x,
            None => return Decoded::Malformed,
        };
        let (status, i) = match field(t, i, ",\"status\":") {
            Some(x) => x,
            None => return Decoded::Malformed,
        };
        let (updated_at, i) = match field(t, i, ",\"updated_at\":") {
            Some(x) => x,
            None => return Decoded::Malformed,
        };
        finish_with(t, i, LanMessage::OrderStatusUpdate { order_id, status, updated_at })
    } else if same_text(kind, "sync_state") {
        let i = match lit_at(t, i, ",\"orders\":[") {
            Some(j) => j,
            None => return Decoded::Malformed,
        };
        let (orders, i) = match read_list(t, i) {
            Some(x) => x,
            None => return Decoded::Malformed,
        };
        finish_with(t, i, LanMessage::SyncState { orders })
    } else if same_text(kind, "register") {
        let i = match lit_at(t, i, ",\"device_type\":") {
            Some(j) => j,
            None => return Decoded::Malformed,
        };
        let (name, i) = match read_raw(t, i) {
            Some(x) => x,
            None => return Decoded::Malformed,
        };
        let device_type = match device_from_name(&name) {
            Some(d) => d,
            None => return Decoded::Malformed,
        };
        let (tenant_id, i) = match field(t, i, ",\"tenant_id\":") {
            Some(x) => x,
            None => return Decoded::Malformed,
        };
        finish_with(t, i, LanMessage::Register { device_type, tenant_id })
    } else if same_text(kind, "registered") {
        let (client_id, i) = match field(t, i, ",\"client_id\":") {
            Some(x) => x,
            None => return Decoded::Malformed,
        };
        let (server_id, i) = match field(t, i, ",\"server_info\":{\"serverId\":") {
            Some(x) => x,
            None => return Decoded::Malformed,
        };
        let (tenant_id, i) = match field(t, i, ",\"tenantId\":") {
            Some(x) => x,
            None => return Decoded::Malformed,
        };
        let i = match lit_at(t, i, ",\"connectedClients\":") {
            Some(j) => j,
            None => return Decoded::Malformed,
        };
        let (connected_clients, i) = match read_count(t, i) {
            Some(x) => x,
            None => return Decoded::Malformed,
        };
        let (server_time, i) = match field(t, i, ",\"serverTime\":") {
            Some(x) => x,
            None => return Decoded::Malformed,
        };
        if i >= t.len() || t[i] != '}' {
            return Decoded::Malformed;
        }
        let server_info = ServerInfo { server_id, tenant_id, connected_clients, server_time };
        finish_with(t, i + 1, LanMessage::Registered { client_id, server_info })
    } else if same_text(kind, "error") {
        let (message, i) = match field(t, i, ",\"message\":") {
            Some(x) => x,
            None => return Decoded::Malformed,
        };
        let (code, i) = match field(t, i, ",\"code\":") {
            Some(x) => x,
            None => return Decoded::Malformed,
        };
        finish_with(t, i, LanMessage::Error { message, code })
    } else {
        Decoded::UnknownKind
    }
}

/// Decodes one frame received from a peer.
pub fn decode(text: &str) -> (r: Decoded)
    ensures
        r@ == decode_text(text@),
{
    let t = chars_of(text);
    let i = match lit_at(&t, 0, "{\"type\":") {
        Some(i) => i,
        None => return Decoded::Malformed,
    };
    match read_raw(&t, i) {
        Some((kind, j)) => decode_body(&t, &kind, j),
        None => Decoded::Malformed,
    }
}

impl DeviceType {
    /// The name of the device type, as it stands on the wire.
    pub fn name(&self) -> (r: &'static str)
        ensures
            r@ == device_name(*self),
    {
        match self {
            DeviceType::Pos => "pos",
            DeviceType::Kds => "kds",
            DeviceType::Bds => "bds",
            DeviceType::Manager => "manager",
        }
    }
}

fn kind_str(m: &LanMessage) -> (r: &'static str)
    ensures
        r@ == kind_name(m@),
{
    match m {
        LanMessage::OrderCreated { .. } => "order_created",
        LanMessage::OrderStatusUpdate { .. } => "order_status_update",
        LanMessage::SyncState { .. } => "sync_state",
        LanMessage::Ping => "ping",
        LanMessage::Pong => "pong",
        LanMessage::Register { .. } => "register",
        LanMessage::Registered { .. } => "registered",
        LanMessage::Error { .. } => "error",
    }
}

fn push_list(out: &mut Vec<char>, xs: &Vec<String>)
    ensures
        final(out)@ == old(out)@ + list_body(texts(xs@)),
{
    let ghost goal = old(out)@ + list_body(texts(xs@));
    if xs.len() == 0 {
        out.push(']');
        assert(out@ =~= goal);
        return;
    }
    push_quoted(out, xs[0].as_str());
    let mut k: usize = 1;
    assert(texts(xs@).skip(1) =~= texts(xs@).drop_first());
    assert(out@ + list_tail(texts(xs@).skip(1)) =~= goal);
    while k < xs.len()
        invariant
            1 <= k <= xs.len(),
            out@ + list_tail(texts(xs@).skip(k as int)) == goal,
        decreases xs.len() - k,
    {
        let ghost rest = texts(xs@).skip(k as int);
        assert(rest.drop_first() =~= texts(xs@).skip(k + 1));
        assert(rest[0] == xs@[k as int]@);
        out.push(',');
        push_quoted(out, xs[k].as_str());
        k = k + 1;
        assert(out@ + list_tail(texts(xs@).skip(k as int)) =~= goal);
    }
    assert(texts(xs@).skip(k as int) =~= Seq::<Seq<char>>::empty());
    out.push(']');
    assert(out@ =~= goal);
}

fn push_fields(out: &mut Vec<char>, m: &LanMessage)
    ensures
        final(out)@ == old(out)@ + fields(m@),
{
    match m {
        LanMessage::OrderCreated { order, kitchen_order } => {
            push_str(out, ",\"order\":");
            push_quoted(out, order.as_str());
            push_str(out, ",\"kitchen_order\":");
            push_quoted(out, kitchen_order.as_str());
            out.push('}');
            assert(final(out)@ =~= old(out)@ + fields(m@));
        },
        LanMessage::OrderStatusUpdate { order_id, status, updated_at } => {
            push_str(out, ",\"order_id\":");
            push_quoted(out, order_id.as_str());
            push_str(out, ",\"status\":");
            push_quoted(out, status.as_str());
            push_str(out, ",\"updated_at\":");
            push_quoted(out, updated_at.as_str());
            out.push('}');
            assert(final(out)@ =~= old(out)@ + fields(m@));
        },
        LanMessage::SyncState { orders } => {
            push_str(out, ",\"orders\":[");
            push_list(out, orders);
            out.push('}');
            assert(final(out)@ =~= old(out)@ + fields(m@));
        },
        LanMessage::Ping => {
            out.push('}');
            assert(final(out)@ =~= old(out)@ + fields(m@));
        },
        LanMessage::Pong => {
            out.push('}');
            assert(final(out)@ =~= old(out)@ + fields(m@));
        },
        LanMessage::Register { device_type, tenant_id } => {
            push_str(out, ",\"device_type\":");
            push_quoted(out, device_type.name());
            push_str(out, ",\"tenant_id\":");
            push_quoted(out, tenant_id.as_str());
            out.push('}');
            assert(final(out)@ =~= old(out)@ + fields(m@));
        },
        LanMessage::Registered { client_id, server_info } => {
            push_registered(out, client_id, server_info);
        },
        LanMessage::Error { message, code } => {
            push_str(out, ",\"message\":");
            push_quoted(out, message.as_str());
            push_str(out, ",\"code\":");
            push_quoted(out, code.as_str());
            out.push('}');
            assert(final(out)@ =~= old(out)@ + fields(m@));
        },
    }
}

fn push_registered(out: &mut Vec<char>, client_id: &String, info: &ServerInfo)
    ensures
        final(out)@ == old(out)@ + fields(
            MessageView::Registered { client_id: client_id@, server_info: info@ },
        ),
{
    push_str(out, ",\"client_id\":");
    push_quoted(out, client_id.as_str());
    push_str(out, ",\"server_info\":{\"serverId\":");
    push_quoted(out, info.server_id.as_str());
    push_str(out, ",\"tenantId\":");
    push_quoted(out, info.tenant_id.as_str());
    push_str(out, ",\"connectedClients\":");
    push_decimal(out, info.connected_clients as u64);
    push_str(out, ",\"serverTime\":");
    push_quoted(out, info.server_time.as_str());
    out.push('}');
    out.push('}');
    assert(final(out)@ =~= old(out)@ + fields(
        MessageView::Registered { client_id: client_id@, server_info: info@ },
    ));
}

/// The wire form of a message.
pub fn encode(m: &LanMessage) -> (r: String)
    ensures
        r@ == encoded(m@),
{
    let mut out: Vec<char> = Vec::new();
    push_str(&mut out, "{\"type\":");
    push_quoted(&mut out, kind_str(m));
    push_fields(&mut out, m);
    assert(out@ =~= encoded(m@));
    string_of(&out)
}

} // verus!
