//! The `.wslconfig` file: reading its `[wsl2]` section and writing a new one.
use vstd::prelude::*;

use crate::text::{
    append_str, ascii_lower, chars_eq_str, chars_of, eq_ignore_ascii_case,
    eq_ignore_ascii_case_exec, is_ws, lemma_find_at, lemma_lines_cons, lemma_trim_no_outer_ws,
    ascii_lower_text, is_ascii_text, lines, lines_of, lower, no_outer_ws, parse_unsigned, parse_unsigned_chars, split_once,
    split_once_chars, string_from, strip_cr, to_lowercase, trim, trim_chars, views,
};

verus! {

broadcast use vstd::string::group_string_axioms;

#[derive(Debug, Clone)]
pub struct WslConfig {
    pub memory: Option<String>,
    pub processors: Option<String>,
    pub swap: Option<String>,
    pub localhost_forwarding: Option<bool>,
    pub nested_virtualization: Option<bool>,
    pub vm_idle_timeout: Option<u64>,
    pub dns_tunneling: Option<bool>,
}

/// The settings of a `.wslconfig`, as the contracts see them.
pub struct WslSettings {
    pub memory: Option<Seq<char>>,
    pub processors: Option<Seq<char>>,
    pub swap: Option<Seq<char>>,
    pub localhost_forwarding: Option<bool>,
    pub nested_virtualization: Option<bool>,
    pub vm_idle_timeout: Option<u64>,
    pub dns_tunneling: Option<bool>,
}

pub open spec fn opt_view(o: Option<String>) -> Option<Seq<char>> {
    match o {
        Some(s) => Some(s@),
        None => None,
    }
}

impl View for WslConfig {
    type V = WslSettings;

    open spec fn view(&self) -> WslSettings {
        WslSettings {
            memory: opt_view(self.memory),
            processors: opt_view(self.processors),
            swap: opt_view(self.swap),
            localhost_forwarding: self.localhost_forwarding,
            nested_virtualization: self.nested_virtualization,
            vm_idle_timeout: self.vm_idle_timeout,
            dns_tunneling: self.dns_tunneling,
        }
    }
}

pub struct WslConfigService;

/// No setting given.
pub open spec fn no_settings() -> WslSettings {
    WslSettings {
        memory: None,
        processors: None,
        swap: None,
        localhost_forwarding: None,
        nested_virtualization: None,
        vm_idle_timeout: None,
        dns_tunneling: None,
    }
}

/// The value of an unsigned 64-bit setting, as `str::parse::<u64>` reads it.
pub open spec fn u64_setting(val: Seq<char>) -> Option<u64> {
    match parse_unsigned(val, u64::MAX as nat) {
        Some(n) => Some(n as u64),
        None => None,
    }
}

/// One `key=value` line of the `[wsl2]` section applied to `c`; `key` is
/// already lower-cased and trimmed, `val` trimmed.  Unknown keys are ignored.
pub open spec fn apply_setting(c: WslSettings, key: Seq<char>, val: Seq<char>) -> WslSettings {
    if key == "memory"@ {
        WslSettings { memory: Some(val), ..c }
    } else if key == "processors"@ {
        WslSettings { processors: Some(val), ..c }
    } else if key == "swap"@ {
        WslSettings { swap: Some(val), ..c }
    } else if key == "localhostforwarding"@ {
        WslSettings { localhost_forwarding: Some(eq_ignore_ascii_case(val, "true"@)), ..c }
    } else if key == "nestedvirtualization"@ {
        WslSettings { nested_virtualization: Some(eq_ignore_ascii_case(val, "true"@)), ..c }
    } else if key == "vmidletimeout"@ {
        WslSettings { vm_idle_timeout: u64_setting(val), ..c }
    } else if key == "dnstunneling"@ {
        WslSettings { dns_tunneling: Some(eq_ignore_ascii_case(val, "true"@)), ..c }
    } else {
        c
    }
}

/// One line read in the state `(settings, inside the [wsl2] section)`.
pub open spec fn read_line(st: (WslSettings, bool), raw: Seq<char>) -> (WslSettings, bool) {
    let line = trim(raw);
    if eq_ignore_ascii_case(line, "[wsl2]"@) {
        (st.0, true)
    } else if line.len() > 0 && line[0] == '[' {
        (st.0, false)
    } else if !st.1 {
        st
    } else {
        match split_once(line, '=') {
            Some((k, v)) => (apply_setting(st.0, lower(trim(k)), trim(v)), true),
            None => st,
        }
    }
}

/// The lines read one after the other from the state `st`.
pub open spec fn read_lines(st: (WslSettings, bool), ls: Seq<Seq<char>>) -> (WslSettings, bool)
    decreases ls.len(),
{
    if ls.len() == 0 {
        st
    } else {
        read_lines(read_line(st, ls[0]), ls.drop_first())
    }
}

/// The settings that a `.wslconfig` text gives: the `key=value` lines of its
/// `[wsl2]` sections, later lines overriding earlier ones.
pub open spec fn parse_settings(content: Seq<char>) -> WslSettings {
    read_lines((no_settings(), false), lines(content)).0
}

/// One line of a written `.wslconfig`.
pub open spec fn setting_line(e: (Seq<char>, Seq<char>)) -> Seq<char> {
    e.0 + seq!['='] + e.1 + seq!['\n']
}

/// The `key=value` lines of the given settings, in order.
pub open spec fn setting_lines(s: Seq<(Seq<char>, Seq<char>)>) -> Seq<char>
    decreases s.len(),
{
    if s.len() == 0 {
        seq![]
    } else {
        setting_line(s[0]) + setting_lines(s.drop_first())
    }
}

/// The text written for the given settings: a `[wsl2]` header, then one
/// `key=value` line each.
pub open spec fn render_settings(s: Seq<(Seq<char>, Seq<char>)>) -> Seq<char> {
    "[wsl2]\n"@ + setting_lines(s)
}

pub open spec fn pairs_view(s: Seq<(String, String)>) -> Seq<(Seq<char>, Seq<char>)> {
    s.map_values(|e: (String, String)| (e.0@, e.1@))
}

impl WslConfigService {
    /// Where the `.wslconfig` lives: in the user's profile directory, or in
    /// `C:\Users\Default` when no profile is known.
    pub fn wslconfig_path(profile: Option<String>) -> (p: String)
        ensures
            p@ == (match profile {
                Some(d) => d@,
                None => "C:\\Users\\Default"@,
            }) + "\\.wslconfig"@,
    {
        let mut v = match &profile {
            Some(d) => chars_of(d.as_str()),
            None => chars_of("C:\\Users\\Default"),
        };
        append_str(&mut v, "\\.wslconfig");
        string_from(&v)
    }

    /// Reads the settings of a `.wslconfig` text (see `parse_settings`).
    pub fn parse(content: &str) -> (cfg: WslConfig)
        ensures
            cfg@ == parse_settings(content@),
    {
        let v = chars_of(content);
        let ls = lines_of(&v);
        let ghost lv = views(ls@);
        let mut cfg = WslConfig {
            memory: None,
            processors: None,
            swap: None,
            localhost_forwarding: None,
            nested_virtualization: None,
            vm_idle_timeout: None,
            dns_tunneling: None,
        };
        let mut in_wsl2 = false;
        assert(lv.skip(0) == lv);
        for i in 0..ls.len()
            invariant
                lv == views(ls@),
                lv == lines(content@),
                read_lines((no_settings(), false), lv) == read_lines(
                    (cfg@, in_wsl2),
                    lv.skip(i as int),
                ),
        {
            let ghost rest = lv.skip(i as int);
            assert(rest[0] == ls@[i as int]@);
            assert(rest.drop_first() == lv.skip(i + 1));
            let ghost before = (cfg@, in_wsl2);
            let line = trim_chars(&ls[i]);
            if eq_ignore_ascii_case_exec(&line, "[wsl2]") {
                in_wsl2 = true;
            } else if line.len() > 0 && line[0] == '[' {
                in_wsl2 = false;
            } else if in_wsl2 {
                match split_once_chars(&line, '=') {
                    Some((k, val)) => {
                        let kt = trim_chars(&k);
                        let ks = string_from(&kt);
                        let key = to_lowercase(ks.as_str());
                        let kc = chars_of(key.as_str());
                        let vt = trim_chars(&val);
                        Self::apply_setting_exec(&mut cfg, &kc, &vt);
                    },
                    None => {},
                }
            }
            assert((cfg@, in_wsl2) == read_line(before, ls@[i as int]@));
        }
        assert(lv.skip(ls.len() as int) =~= Seq::<Seq<char>>::empty());
        cfg
    }

    fn apply_setting_exec(cfg: &mut WslConfig, key: &Vec<char>, val: &Vec<char>)
        ensures
            final(cfg)@ == apply_setting(old(cfg)@, key@, val@),
    {
        if chars_eq_str(key, "memory") {
            cfg.memory = Some(string_from(val));
        } else if chars_eq_str(key, "processors") {
            cfg.processors = Some(string_from(val));
        } else if chars_eq_str(key, "swap") {
            cfg.swap = Some(string_from(val));
        } else if chars_eq_str(key, "localhostforwarding") {
            cfg.localhost_forwarding = Some(eq_ignore_ascii_case_exec(val, "true"));
        } else if chars_eq_str(key, "nestedvirtualization") {
            cfg.nested_virtualization = Some(eq_ignore_ascii_case_exec(val, "true"));
        } else if chars_eq_str(key, "vmidletimeout") {
            cfg.vm_idle_timeout = parse_unsigned_chars(val, u64::MAX);
        } else if chars_eq_str(key, "dnstunneling") {
            cfg.dns_tunneling = Some(eq_ignore_ascii_case_exec(val, "true"));
        }
    }

    /// The text of a `.wslconfig` holding the given settings, in the given
    /// order (see `render_settings`).
    pub fn wslconfig_content(settings: &Vec<(String, String)>) -> (text: String)
        ensures
            text@ == render_settings(pairs_view(settings@)),
    {
        let ghost sv = pairs_view(settings@);
        let mut out = chars_of("[wsl2]\n");
        let ghost head = out@;
        assert(sv.skip(0) == sv);
        for i in 0..settings.len()
            invariant
                sv == pairs_view(settings@),
                head == "[wsl2]\n"@,
                head + setting_lines(sv) == out@ + setting_lines(sv.skip(i as int)),
        {
            let ghost rest = sv.skip(i as int);
            assert(rest[0] == (settings@[i as int].0@, settings@[i as int].1@));
            assert(rest.drop_first() == sv.skip(i + 1));
            let ghost before = out@;
            append_str(&mut out, settings[i].0.as_str());
            out.push('=');
            append_str(&mut out, settings[i].1.as_str());
            out.push('\n');
            assert(out@ =~= before + setting_line(rest[0]));
            assert(before + setting_lines(rest) =~= out@ + setting_lines(sv.skip(i + 1)));
        }
        assert(sv.skip(settings.len() as int) =~= Seq::<(Seq<char>, Seq<char>)>::empty());
        assert(out@ =~= head + setting_lines(sv));
        string_from(&out)
    }
}

/// A setting that a written `.wslconfig` gives back as written: its key is not
/// empty, does not begin with `[`, holds no `=`, and neither key nor value
/// holds a line break or has whitespace around it.
pub open spec fn plain_setting(e: (Seq<char>, Seq<char>)) -> bool {
    &&& e.0.len() > 0
    &&& e.0[0] != '['
    &&& no_outer_ws(e.0)
    &&& no_outer_ws(e.1)
    &&& forall|i: int| 0 <= i < e.0.len() ==> e.0[i] != '=' && e.0[i] != '\n' && e.0[i] != '\r'
    &&& forall|i: int| 0 <= i < e.1.len() ==> e.1[i] != '\n' && e.1[i] != '\r'
}

/// The settings applied one after the other to `c`, each key lower-cased as
/// the reader does.
pub open spec fn apply_settings(c: WslSettings, s: Seq<(Seq<char>, Seq<char>)>) -> WslSettings
    decreases s.len(),
{
    if s.len() == 0 {
        c
    } else {
        apply_settings(apply_setting(c, lower(s[0].0), s[0].1), s.drop_first())
    }
}

/// The line `key=value` of a plain setting reads as that setting.
proof fn lemma_read_setting_line(c: WslSettings, e: (Seq<char>, Seq<char>))
    requires
        plain_setting(e),
    ensures
        read_line((c, true), e.0 + seq!['='] + e.1) == (apply_setting(c, lower(e.0), e.1), true),
{
    let k = e.0;
    let v = e.1;
    let line = k + seq!['='] + v;
    assert(line[0] == k[0]);
    assert(!is_ws(line.last())) by {
        if v.len() > 0 {
            assert(line.last() == v.last());
        } else {
            assert(line.last() == '=');
        }
    }
    lemma_trim_no_outer_ws(line);
    lemma_trim_no_outer_ws(k);
    lemma_trim_no_outer_ws(v);
    reveal_strlit("[wsl2]");
    assert(!eq_ignore_ascii_case(line, "[wsl2]"@)) by {
        if line.len() == "[wsl2]"@.len() {
            assert(ascii_lower("[wsl2]"@[0]) == '[');
            vstd::utf8::char_u32_cast(line[0], line[0] as u32);
            assert(ascii_lower(line[0]) != '[');
        }
    }
    assert(line[k.len() as int] == '=');
    assert forall|j: int| 0 <= j < k.len() implies line[j] != '=' by {
        assert(line[j] == k[j]);
    }
    lemma_find_at(line, '=', 0, k.len() as int);
    assert(line.take(k.len() as int) =~= k);
    assert(line.skip(k.len() as int + 1) =~= v);
}

/// Reading the lines of written plain settings inside the `[wsl2]` section
/// applies them in order.
proof fn lemma_read_setting_lines(c: WslSettings, s: Seq<(Seq<char>, Seq<char>)>)
    requires
        forall|i: int| 0 <= i < s.len() ==> plain_setting(#[trigger] s[i]),
    ensures
        read_lines((c, true), lines(setting_lines(s))) == (apply_settings(c, s), true),
    decreases s.len(),
{
    if s.len() > 0 {
        let e = s[0];
        let x = e.0 + seq!['='] + e.1;
        assert(plain_setting(e));
        assert forall|j: int| 0 <= j < x.len() implies x[j] != '\n' by {
            if j < e.0.len() {
                assert(x[j] == e.0[j]);
            } else if j > e.0.len() {
                assert(x[j] == e.1[j - e.0.len() - 1]);
            }
        }
        assert(setting_lines(s) =~= x + seq!['\n'] + setting_lines(s.drop_first()));
        lemma_lines_cons(x, setting_lines(s.drop_first()));
        assert(strip_cr(x) == x) by {
            if e.1.len() > 0 {
                assert(x.last() == e.1[e.1.len() - 1]);
            } else {
                assert(x.last() == '=');
            }
        }
        let ls = seq![x] + lines(setting_lines(s.drop_first()));
        assert(ls[0] == x);
        assert(ls.drop_first() =~= lines(setting_lines(s.drop_first())));
        lemma_read_setting_line(c, e);
        assert forall|i: int| 0 <= i < s.drop_first().len() implies plain_setting(
            #[trigger] s.drop_first()[i],
        ) by {
            assert(s.drop_first()[i] == s[i + 1]);
        }
        lemma_read_setting_lines(
            apply_setting(c, lower(e.0), e.1),
            s.drop_first(),
        );
    } else {
        assert(setting_lines(s) =~= Seq::<char>::empty());
        assert(lines(Seq::<char>::empty()) =~= Seq::<Seq<char>>::empty());
    }
}

/// What is written is read back: the `.wslconfig` text written for plain
/// settings reads as those settings applied in order to no settings.
pub proof fn lemma_written_settings_read_back(s: Seq<(Seq<char>, Seq<char>)>)
    requires
        forall|i: int| 0 <= i < s.len() ==> plain_setting(#[trigger] s[i]),
    ensures
        parse_settings(render_settings(s)) == apply_settings(no_settings(), s),
{
    reveal_strlit("[wsl2]\n");
    reveal_strlit("[wsl2]");
    let h = "[wsl2]"@;
    assert("[wsl2]\n"@ =~= h + seq!['\n']);
    assert(render_settings(s) =~= h + seq!['\n'] + setting_lines(s));
    assert forall|j: int| 0 <= j < h.len() implies h[j] != '\n' by {}
    lemma_lines_cons(h, setting_lines(s));
    assert(strip_cr(h) == h);
    let ls = seq![h] + lines(setting_lines(s));
    assert(ls[0] == h);
    assert(ls.drop_first() =~= lines(setting_lines(s)));
    assert(no_outer_ws(h));
    lemma_trim_no_outer_ws(h);
    assert(eq_ignore_ascii_case(h, "[wsl2]"@));
    assert(read_line((no_settings(), false), h) == (no_settings(), true));
    lemma_read_setting_lines(no_settings(), s);
}

/// The value of the last setting of key `k` in `s`, if any.
pub open spec fn last_value(s: Seq<(Seq<char>, Seq<char>)>, k: Seq<char>) -> Option<Seq<char>>
    decreases s.len(),
{
    if s.len() == 0 {
        None
    } else {
        match last_value(s.drop_first(), k) {
            Some(v) => Some(v),
            None => if s[0].0 == k {
                Some(s[0].1)
            } else {
                None
            },
        }
    }
}

/// One of the keys `memory`, `processors` and `swap`.
pub open spec fn text_key(k: Seq<char>) -> bool {
    k == "memory"@ || k == "processors"@ || k == "swap"@
}

/// A value that a written `.wslconfig` gives back as written: no line break
/// in it and no whitespace around it.
pub open spec fn plain_value(v: Seq<char>) -> bool {
    &&& no_outer_ws(v)
    &&& forall|i: int| 0 <= i < v.len() ==> v[i] != '\n' && v[i] != '\r'
}

/// The text keys are their own lower case and are plain.
proof fn lemma_text_key(e: (Seq<char>, Seq<char>))
    requires
        text_key(e.0),
        plain_value(e.1),
    ensures
        lower(e.0) == e.0,
        plain_setting(e),
{
    reveal_strlit("memory");
    reveal_strlit("processors");
    reveal_strlit("swap");
    let k = e.0;
    assert(is_ascii_text(k));
    assert(ascii_lower_text(k) =~= k);
}

/// Applying settings of text keys sets each of those keys to its last value
/// and leaves the rest of `c` as it is.
proof fn lemma_apply_text_settings(c: WslSettings, s: Seq<(Seq<char>, Seq<char>)>)
    requires
        forall|i: int| 0 <= i < s.len() ==> text_key(#[trigger] s[i].0) && plain_value(s[i].1),
    ensures
        apply_settings(c, s) == (WslSettings {
            memory: match last_value(s, "memory"@) {
                Some(v) => Some(v),
                None => c.memory,
            },
            processors: match last_value(s, "processors"@) {
                Some(v) => Some(v),
                None => c.processors,
            },
            swap: match last_value(s, "swap"@) {
                Some(v) => Some(v),
                None => c.swap,
            },
            ..c
        }),
    decreases s.len(),
{
    if s.len() > 0 {
        assert(text_key(s[0].0) && plain_value(s[0].1));
        lemma_text_key(s[0]);
        reveal_strlit("memory");
        reveal_strlit("processors");
        reveal_strlit("swap");
        let c2 = apply_setting(c, lower(s[0].0), s[0].1);
        assert forall|i: int| 0 <= i < s.drop_first().len() implies text_key(
            #[trigger] s.drop_first()[i].0,
        ) && plain_value(s.drop_first()[i].1) by {
            assert(s.drop_first()[i] == s[i + 1]);
        }
        lemma_apply_text_settings(c2, s.drop_first());
    }
}

/// What is written is read back: the `.wslconfig` text written for settings
/// of the keys `memory`, `processors` and `swap`, with plain values, reads
/// as the last value written for each of those keys and no other setting.
pub proof fn lemma_text_settings_read_back(s: Seq<(Seq<char>, Seq<char>)>)
    requires
        forall|i: int| 0 <= i < s.len() ==> text_key(#[trigger] s[i].0) && plain_value(s[i].1),
    ensures
        parse_settings(render_settings(s)) == (WslSettings {
            memory: last_value(s, "memory"@),
            processors: last_value(s, "processors"@),
            swap: last_value(s, "swap"@),
            ..no_settings()
        }),
{
    assert forall|i: int| 0 <= i < s.len() implies plain_setting(#[trigger] s[i]) by {
        assert(text_key(s[i].0) && plain_value(s[i].1));
        lemma_text_key(s[i]);
    }
    lemma_written_settings_read_back(s);
    lemma_apply_text_settings(no_settings(), s);
}

} // verus!
