//! The prefix catalog and the pattern text built from it.

use vstd::prelude::*;
use vstd::string::*;

verus! {

/// The characters that have a meaning of their own in a pattern.
pub open spec fn is_meta(c: char) -> bool {
    c == '\\' || c == '.' || c == '+' || c == '*' || c == '?' || c == '(' || c == ')' || c == '|'
        || c == '[' || c == ']' || c == '{' || c == '}' || c == '^' || c == '$' || c == '#' || c
        == '&' || c == '-' || c == '~'
}

/// `text` with a backslash put before each meta character, so that a pattern
/// holding it matches `text` literally.
pub open spec fn escaped(text: Seq<char>) -> Seq<char>
    decreases text.len(),
{
    if text.len() == 0 {
        Seq::empty()
    } else if is_meta(text.last()) {
        escaped(text.drop_last()) + seq!['\\', text.last()]
    } else {
        escaped(text.drop_last()) + seq![text.last()]
    }
}

/// The text of each string of `strings`, in order.
pub open spec fn texts(strings: Seq<String>) -> Seq<Seq<char>> {
    Seq::new(strings.len(), |i: int| strings[i]@)
}

/// The root-level system directories that always count as the start of a path.
pub open spec fn system_prefixes() -> Seq<Seq<char>> {
    seq![
        "/bin"@,
        "/boot"@,
        "/dev"@,
        "/etc"@,
        "/home"@,
        "/lib"@,
        "/lib64"@,
        "/lost+found"@,
        "/mnt"@,
        "/opt"@,
        "/proc"@,
        "/root"@,
        "/run"@,
        "/sbin"@,
        "/srv"@,
        "/sys"@,
        "/tmp"@,
        "/usr"@,
        "/var"@,
    ]
}

/// Each of `names`, escaped, in order.
pub open spec fn all_escaped(names: Seq<Seq<char>>) -> Seq<Seq<char>> {
    Seq::new(names.len(), |i: int| escaped(names[i]))
}

/// The catalog for a working directory whose entries are `entries`: the
/// system directories, then the entries, then the home marker `~`, each
/// escaped.
pub open spec fn prefix_catalog(entries: Seq<Seq<char>>) -> Seq<Seq<char>> {
    all_escaped(system_prefixes()) + all_escaped(entries) + seq![escaped(seq!['~'])]
}

/// `parts` in order, with `sep` between each two neighbours.
pub open spec fn joined(parts: Seq<Seq<char>>, sep: Seq<char>) -> Seq<char>
    decreases parts.len(),
{
    if parts.len() == 0 {
        Seq::empty()
    } else if parts.len() == 1 {
        parts[0]
    } else {
        joined(parts.drop_last(), sep) + sep + parts.last()
    }
}

/// The pattern for a catalog: one of the prefixes, then optionally a `/` and a
/// run of one or more characters other than whitespace, `$`, `;`, `~`, `:`,
/// `"` and ESC.
pub open spec fn pattern_text(prefixes: Seq<Seq<char>>) -> Seq<char> {
    "(?:"@ + joined(prefixes, seq!['|']) + ")(?:/[^$\\s;~:\"\\x1b]+)?"@
}

/// Text without meta characters is its own escaped form.
pub proof fn lemma_plain_text_escapes_to_itself(text: Seq<char>)
    requires
        forall|i: int| 0 <= i < text.len() ==> !is_meta(#[trigger] text[i]),
    ensures
        escaped(text) == text,
    decreases text.len(),
{
    if text.len() > 0 {
        lemma_plain_text_escapes_to_itself(text.drop_last());
        assert(text.drop_last().push(text.last()) =~= text);
    }
}

/// Escaping goes character by character: the escaped form of two texts in a
/// row is the escaped forms of the two in a row.
pub proof fn lemma_escaped_distributes(first: Seq<char>, second: Seq<char>)
    ensures
        escaped(first + second) == escaped(first) + escaped(second),
    decreases second.len(),
{
    if second.len() == 0 {
        assert(first + second =~= first);
    } else {
        lemma_escaped_distributes(first, second.drop_last());
        assert((first + second).drop_last() =~= first + second.drop_last());
        assert((first + second).last() == second.last());
    }
}

/// Of the system directories only `/lost+found` holds a meta character, so
/// the catalog begins with the directories as they are written, but for the
/// backslash before that `+`.
pub proof fn lemma_system_prefixes_escaped()
    ensures
        all_escaped(system_prefixes()) == seq![
            "/bin"@,
            "/boot"@,
            "/dev"@,
            "/etc"@,
            "/home"@,
            "/lib"@,
            "/lib64"@,
            "/lost\\+found"@,
            "/mnt"@,
            "/opt"@,
            "/proc"@,
            "/root"@,
            "/run"@,
            "/sbin"@,
            "/srv"@,
            "/sys"@,
            "/tmp"@,
            "/usr"@,
            "/var"@,
        ],
{
    reveal_strlit("/bin");
    reveal_strlit("/boot");
    reveal_strlit("/dev");
    reveal_strlit("/etc");
    reveal_strlit("/home");
    reveal_strlit("/lib");
    reveal_strlit("/lib64");
    reveal_strlit("/lost+found");
    reveal_strlit("/lost\\+found");
    reveal_strlit("/mnt");
    reveal_strlit("/opt");
    reveal_strlit("/proc");
    reveal_strlit("/root");
    reveal_strlit("/run");
    reveal_strlit("/sbin");
    reveal_strlit("/srv");
    reveal_strlit("/sys");
    reveal_strlit("/tmp");
    reveal_strlit("/usr");
    reveal_strlit("/var");
    lemma_plain_text_escapes_to_itself("/bin"@);
    lemma_plain_text_escapes_to_itself("/boot"@);
    lemma_plain_text_escapes_to_itself("/dev"@);
    lemma_plain_text_escapes_to_itself("/etc"@);
    lemma_plain_text_escapes_to_itself("/home"@);
    lemma_plain_text_escapes_to_itself("/lib"@);
    lemma_plain_text_escapes_to_itself("/lib64"@);
    lemma_plain_text_escapes_to_itself("/mnt"@);
    lemma_plain_text_escapes_to_itself("/opt"@);
    lemma_plain_text_escapes_to_itself("/proc"@);
    lemma_plain_text_escapes_to_itself("/root"@);
    lemma_plain_text_escapes_to_itself("/run"@);
    lemma_plain_text_escapes_to_itself("/sbin"@);
    lemma_plain_text_escapes_to_itself("/srv"@);
    lemma_plain_text_escapes_to_itself("/sys"@);
    lemma_plain_text_escapes_to_itself("/tmp"@);
    lemma_plain_text_escapes_to_itself("/usr"@);
    lemma_plain_text_escapes_to_itself("/var"@);
    let lost = seq!['/', 'l', 'o', 's', 't'];
    let plus = seq!['+'];
    let found = seq!['f', 'o', 'u', 'n', 'd'];
    lemma_plain_text_escapes_to_itself(lost);
    lemma_plain_text_escapes_to_itself(found);
    assert(escaped(plus) =~= seq!['\\', '+']) by {
        reveal_with_fuel(escaped, 2);
        assert(plus.drop_last() =~= Seq::<char>::empty());
    }
    lemma_escaped_distributes(lost, plus);
    lemma_escaped_distributes(lost + plus, found);
    assert("/lost+found"@ =~= lost + plus + found);
    assert("/lost\\+found"@ =~= lost + seq!['\\', '+'] + found);
}

/// A catalog is never empty: it holds the nineteen system directories, the
/// entries, and the escaped home marker as its last prefix.
pub proof fn lemma_catalog_ends_with_home_marker(entries: Seq<Seq<char>>)
    ensures
        prefix_catalog(entries).len() == entries.len() + 20,
        prefix_catalog(entries).last() == seq!['\\', '~'],
{
    reveal_with_fuel(escaped, 2);
    assert(seq!['~'].drop_last() =~= Seq::<char>::empty());
    assert(escaped(seq!['~']) =~= seq!['\\', '~']);
}

/// Calls `regex::escape`, which copies the text and puts a backslash before
/// each of the eighteen meta characters of the pattern syntax.
#[verifier::external_body]
fn escape(text: &str) -> (out: String)
    ensures
        out@ == escaped(text@),
{
    regex::escape(text)
}

/// Builds the prefix catalog from the names of the working directory's
/// entries.
pub fn get_prefixes(entries: &[String]) -> (prefixes: Vec<String>)
    ensures
        texts(prefixes@) == prefix_catalog(texts(entries@)),
{
    let system: Vec<&str> = vec![
        "/bin",
        "/boot",
        "/dev",
        "/etc",
        "/home",
        "/lib",
        "/lib64",
        "/lost+found",
        "/mnt",
        "/opt",
        "/proc",
        "/root",
        "/run",
        "/sbin",
        "/srv",
        "/sys",
        "/tmp",
        "/usr",
        "/var",
    ];
    assert(Seq::new(system@.len(), |i: int| system@[i]@) =~= system_prefixes());
    let mut prefixes: Vec<String> = Vec::new();
    let mut i: usize = 0;
    while i < system.len()
        invariant
            i <= system.len(),
            Seq::new(system@.len(), |k: int| system@[k]@) == system_prefixes(),
            texts(prefixes@) =~= all_escaped(system_prefixes()).subrange(0, i as int),
        decreases system.len() - i,
    {
        let ghost before = texts(prefixes@);
        let item = escape(system[i]);
        proof {
            let names = Seq::new(system@.len(), |k: int| system@[k]@);
            assert(names[i as int] == system@[i as int]@);
            assert(all_escaped(system_prefixes())[i as int] == item@);
        }
        prefixes.push(item);
        assert(texts(prefixes@) =~= before.push(item@));
        i += 1;
    }
    assert(texts(prefixes@) =~= all_escaped(system_prefixes()));
    let mut j: usize = 0;
    while j < entries.len()
        invariant
            j <= entries.len(),
            texts(prefixes@) =~= all_escaped(system_prefixes()) + all_escaped(
                texts(entries@),
            ).subrange(0, j as int),
        decreases entries.len() - j,
    {
        let ghost before = texts(prefixes@);
        let item = escape(entries[j].as_str());
        proof {
            assert(texts(entries@)[j as int] == entries@[j as int]@);
            assert(all_escaped(texts(entries@))[j as int] == item@);
        }
        prefixes.push(item);
        assert(texts(prefixes@) =~= before.push(item@));
        j += 1;
    }
    assert(all_escaped(texts(entries@)).subrange(0, j as int) =~= all_escaped(texts(entries@)));
    let ghost before = texts(prefixes@);
    let marker = escape("~");
    proof {
        reveal_strlit("~");
        assert("~"@ =~= seq!['~']);
    }
    prefixes.push(marker);
    assert(texts(prefixes@) =~= before.push(marker@));
    prefixes
}

/// Builds the text of the pattern that matches a path.
pub fn build_pattern(prefixes: &[String]) -> (pattern: String)
    ensures
        pattern@ == pattern_text(texts(prefixes@)),
{
    let mut pattern = String::from_str("(?:");
    let ghost parts = texts(prefixes@);
    let mut i: usize = 0;
    while i < prefixes.len()
        invariant
            i <= prefixes.len(),
            parts == texts(prefixes@),
            pattern@ == "(?:"@ + joined(parts.subrange(0, i as int), seq!['|']),
        decreases prefixes.len() - i,
    {
        if i > 0 {
            pattern.append("|");
        }
        pattern.append(prefixes[i].as_str());
        proof {
            reveal_strlit("|");
            let upto = parts.subrange(0, i + 1);
            assert(upto.drop_last() =~= parts.subrange(0, i as int));
            assert(upto.last() == prefixes@[i as int]@);
            assert("|"@ =~= seq!['|']);
        }
        i += 1;
    }
    assert(parts.subrange(0, i as int) =~= parts);
    pattern.append(")(?:/[^$\\s;~:\"\\x1b]+)?");
    pattern
}

} // verus!
