//! Backup subjects and snapshots as paths: a group is `type/id`, a
//! snapshot is `type/id/<timestamp>`. The grammar is fixed: the type is
//! one of `host`, `vm`, `ct`; the id starts with an alphanumeric
//! character followed by at least one more of `[A-Za-z0-9_-]`; the
//! timestamp is the 25-character form of `backup_time`. Parsing matches
//! a suffix of the given path, as the store's path filters do.

use vstd::prelude::*;

use crate::backup_time::{time_parse, BackupTime};
use crate::error::StoreError;

verus! {

/// The characters of the `host` backup type.
pub open spec fn backup_type_host() -> Seq<char> {
    seq!['h', 'o', 's', 't']
}

/// The characters of the `vm` backup type.
pub open spec fn backup_type_vm() -> Seq<char> {
    seq!['v', 'm']
}

/// The characters of the `ct` backup type.
pub open spec fn backup_type_ct() -> Seq<char> {
    seq!['c', 't']
}

/// True when `s` ends with `suffix`.
pub open spec fn ends_with_chars(s: Seq<char>, suffix: Seq<char>) -> bool {
    s.len() >= suffix.len() && s.skip(s.len() - suffix.len()) == suffix
}

/// True for `A`-`Z`, `a`-`z` and `0`-`9`.
pub open spec fn is_id_start(c: char) -> bool {
    (65 <= c as u32 <= 90) || (97 <= c as u32 <= 122) || (48 <= c as u32 <= 57)
}

/// True for the characters an id may continue with.
pub open spec fn is_id_char(c: char) -> bool {
    is_id_start(c) || c == '_' || c == '-'
}

/// True for a well-formed backup id: an alphanumeric character followed
/// by at least one more id character.
pub open spec fn is_valid_id(s: Seq<char>) -> bool {
    &&& s.len() >= 2
    &&& is_id_start(s[0])
    &&& forall|i: int| 1 <= i < s.len() ==> is_id_char(#[trigger] s[i])
}

/// The position of the last `/` in `s`, or `-1` when there is none.
pub open spec fn last_slash_index(s: Seq<char>) -> int
    decreases s.len(),
{
    if s.len() == 0 {
        -1
    } else if s.last() == '/' {
        s.len() - 1
    } else {
        last_slash_index(s.drop_last())
    }
}

/// What parsing a group path yields: the backup type and id of the
/// matching suffix `type/id`, or nothing. The id is everything after
/// the last `/`; what precedes that `/` must end with a backup type.
pub open spec fn group_parse(s: Seq<char>) -> Option<(Seq<char>, Seq<char>)> {
    let k = last_slash_index(s);
    if k < 0 {
        None
    } else {
        let head = s.take(k);
        let id = s.skip(k + 1);
        if !is_valid_id(id) {
            None
        } else if ends_with_chars(head, backup_type_host()) {
            Some((backup_type_host(), id))
        } else if ends_with_chars(head, backup_type_vm()) {
            Some((backup_type_vm(), id))
        } else if ends_with_chars(head, backup_type_ct()) {
            Some((backup_type_ct(), id))
        } else {
            None
        }
    }
}

/// What parsing a snapshot path yields: the type, id and timestamp of
/// the matching suffix `type/id/<timestamp>`, or nothing.
pub open spec fn snapshot_parse(s: Seq<char>) -> Option<(Seq<char>, Seq<char>, BackupTime)> {
    if s.len() >= 26 && s[s.len() - 26] == '/' {
        match group_parse(s.take(s.len() - 26)) {
            Some((ty, id)) => match time_parse(s.skip(s.len() - 25)) {
                Some(t) => Some((ty, id, t)),
                None => None,
            },
            None => None,
        }
    } else {
        None
    }
}

/// A backup subject: its type and its unique id within the type.
#[derive(Clone, Debug)]
pub struct BackupGroup {
    /// Type of backup.
    pub backup_type: String,
    /// Unique (for this type) id.
    pub backup_id: String,
}

/// One snapshot of a backup subject.
#[derive(Clone, Debug)]
pub struct BackupDir {
    /// The subject.
    pub group: BackupGroup,
    /// When the snapshot was taken.
    pub backup_time: BackupTime,
}

/// A materialized snapshot: where it lives and which index files it holds.
#[derive(Clone, Debug)]
pub struct BackupInfo {
    /// The snapshot.
    pub backup_dir: BackupDir,
    /// Names of the index files found inside it.
    pub files: Vec<String>,
}

/// Parse the group suffix of the first `m` characters of `s`.
fn group_parse_prefix(s: &str, m: usize) -> (r: Result<BackupGroup, StoreError>)
    requires
        m <= s@.len(),
    ensures
        r is Ok <==> group_parse(s@.take(m as int)) is Some,
        r is Ok ==> group_parse(s@.take(m as int)) == Some(
            (r->Ok_0.backup_type@, r->Ok_0.backup_id@),
        ),
        r is Err ==> r == Result::<BackupGroup, StoreError>::Err(StoreError::Format),
{
    let ghost sm = s@.take(m as int);
    let mut i: usize = 0;
    let mut last: usize = 0;
    let mut found = false;
    while i < m
        invariant
            i <= m <= s@.len(),
            sm == s@.take(m as int),
            found ==> last < i && last_slash_index(s@.take(i as int)) == last,
            !found ==> last_slash_index(s@.take(i as int)) == -1,
        decreases m - i,
    {
        proof {
            assert(s@.take(i + 1int).drop_last() =~= s@.take(i as int));
            assert(s@.take(i + 1int).last() == s@[i as int]);
        }
        if s.get_char(i) == '/' {
            last = i;
            found = true;
        }
        i = i + 1;
    }
    if !found {
        return Err(StoreError::Format);
    }
    let k = last;
    assert(last_slash_index(sm) == k);
    // The id: everything after the last slash.
    if m - k - 1 < 2 {
        proof {
            assert(sm.skip(k + 1).len() < 2);
        }
        return Err(StoreError::Format);
    }
    proof {
        assert(sm.skip(k + 1) =~= s@.subrange(k + 1, m as int));
    }
    if !char_is_id_start(s.get_char(k + 1)) {
        return Err(StoreError::Format);
    }
    let mut j: usize = k + 2;
    while j < m
        invariant
            k + 2 <= j <= m <= s@.len(),
            sm == s@.take(m as int),
            last_slash_index(sm) == k,
            forall|p: int| k + 2 <= p < j ==> is_id_char(#[trigger] s@[p]),
        decreases m - j,
    {
        if !char_is_id(s.get_char(j)) {
            proof {
                let id = sm.skip(k + 1);
                assert(id[j - (k + 1)] == s@[j as int]);
                assert(!is_valid_id(id));
            }
            return Err(StoreError::Format);
        }
        j = j + 1;
    }
    assert(is_valid_id(sm.skip(k + 1)));
    // The type: what stands before the slash must end with one of the
    // three backup types.
    let ghost head = sm.take(k as int);
    proof {
        if k >= 4 {
            assert(head.skip(k - 4) =~= seq![s@[k - 4], s@[k - 3], s@[k - 2], s@[k - 1]]);
        }
        if k >= 2 {
            assert(head.skip(k - 2) =~= seq![s@[k - 2], s@[k - 1]]);
        }
    }
    let type_str: &'static str;
    if k >= 4 && s.get_char(k - 4) == 'h' && s.get_char(k - 3) == 'o' && s.get_char(k - 2) == 's'
        && s.get_char(k - 1) == 't' {
        type_str = "host";
        proof {
            reveal_strlit("host");
            assert(type_str@ =~= backup_type_host());
            assert(ends_with_chars(head, backup_type_host()));
        }
    } else if k >= 2 && s.get_char(k - 2) == 'v' && s.get_char(k - 1) == 'm' {
        type_str = "vm";
        proof {
            reveal_strlit("vm");
            assert(type_str@ =~= backup_type_vm());
            assert(!ends_with_chars(head, backup_type_host()));
            assert(ends_with_chars(head, backup_type_vm()));
        }
    } else if k >= 2 && s.get_char(k - 2) == 'c' && s.get_char(k - 1) == 't' {
        type_str = "ct";
        proof {
            reveal_strlit("ct");
            assert(type_str@ =~= backup_type_ct());
            assert(!ends_with_chars(head, backup_type_host()));
            assert(!ends_with_chars(head, backup_type_vm()));
            assert(ends_with_chars(head, backup_type_ct()));
        }
    } else {
        proof {
            assert(!ends_with_chars(head, backup_type_host()));
            assert(!ends_with_chars(head, backup_type_vm()));
            assert(!ends_with_chars(head, backup_type_ct()));
        }
        return Err(StoreError::Format);
    }
    let id = s.substring_char(k + 1, m).to_owned();
    Ok(BackupGroup { backup_type: type_str.to_owned(), backup_id: id })
}

/// True for a well-formed backup id.
pub fn str_is_valid_id(s: &str) -> (r: bool)
    ensures
        r == is_valid_id(s@),
{
    let n = s.unicode_len();
    if n < 2 {
        return false;
    }
    if !char_is_id_start(s.get_char(0)) {
        return false;
    }
    let mut i: usize = 1;
    while i < n
        invariant
            1 <= i <= n == s@.len(),
            forall|p: int| 1 <= p < i ==> is_id_char(#[trigger] s@[p]),
        decreases n - i,
    {
        if !char_is_id(s.get_char(i)) {
            return false;
        }
        i = i + 1;
    }
    true
}

/// True for `A`-`Z`, `a`-`z` and `0`-`9`.
fn char_is_id_start(c: char) -> (r: bool)
    ensures
        r == is_id_start(c),
{
    let v = c as u32;
    (65 <= v && v <= 90) || (97 <= v && v <= 122) || (48 <= v && v <= 57)
}

/// True for the characters an id may continue with.
fn char_is_id(c: char) -> (r: bool)
    ensures
        r == is_id_char(c),
{
    char_is_id_start(c) || c == '_' || c == '-'
}

impl BackupGroup {
    /// Parse a backup group path. Fails with a format error exactly when
    /// no suffix of the path has the form `type/id`.
    pub fn parse(path: &str) -> (r: Result<BackupGroup, StoreError>)
        ensures
            r is Ok <==> group_parse(path@) is Some,
            r is Ok ==> group_parse(path@) == Some(
                (r->Ok_0.backup_type@, r->Ok_0.backup_id@),
            ),
            r is Err ==> r == Result::<BackupGroup, StoreError>::Err(StoreError::Format),
    {
        let n = path.unicode_len();
        proof {
            assert(path@.take(n as int) =~= path@);
        }
        group_parse_prefix(path, n)
    }

    /// The relative directory path of the group: `type/id`.
    pub fn group_path(&self) -> (r: String)
        ensures
            r@ == self.backup_type@ + seq!['/'] + self.backup_id@,
    {
        let mut r = self.backup_type.clone();
        r.append("/");
        r.append(self.backup_id.as_str());
        proof {
            reveal_strlit("/");
            assert(r@ =~= self.backup_type@ + seq!['/'] + self.backup_id@);
        }
        r
    }
}

impl BackupDir {
    /// Parse a snapshot path. Fails with a format error exactly when no
    /// suffix of the path has the form `type/id/<timestamp>`.
    pub fn parse(path: &str) -> (r: Result<BackupDir, StoreError>)
        ensures
            r is Ok <==> snapshot_parse(path@) is Some,
            r is Ok ==> snapshot_parse(path@) == Some(
                (
                    r->Ok_0.group.backup_type@,
                    r->Ok_0.group.backup_id@,
                    r->Ok_0.backup_time,
                ),
            ),
            r is Err ==> r == Result::<BackupDir, StoreError>::Err(StoreError::Format),
    {
        let n = path.unicode_len();
        if n < 26 {
            return Err(StoreError::Format);
        }
        if path.get_char(n - 26) != '/' {
            return Err(StoreError::Format);
        }
        let group = group_parse_prefix(path, n - 26)?;
        let time_str = path.substring_char(n - 25, n);
        proof {
            assert(time_str@ =~= path@.skip(n - 25));
        }
        let backup_time = BackupTime::parse_rfc3339(time_str)?;
        Ok(BackupDir { group, backup_time })
    }

    /// The snapshot directory name for a backup time.
    pub fn backup_time_to_file_name(backup_time: &BackupTime) -> (r: String)
        requires
            backup_time.valid(),
        ensures
            r@ == crate::backup_time::rfc3339_render(*backup_time),
    {
        backup_time.to_rfc3339()
    }

    /// The relative directory path of the snapshot: `type/id/<timestamp>`.
    pub fn relative_path(&self) -> (r: String)
        requires
            self.backup_time.valid(),
        ensures
            r@ == self.group.backup_type@ + seq!['/'] + self.group.backup_id@ + seq!['/']
                + crate::backup_time::rfc3339_render(self.backup_time),
    {
        let mut r = self.group.group_path();
        r.append("/");
        let t = Self::backup_time_to_file_name(&self.backup_time);
        r.append(t.as_str());
        proof {
            reveal_strlit("/");
            assert(r@ =~= self.group.backup_type@ + seq!['/'] + self.group.backup_id@ + seq!['/']
                + crate::backup_time::rfc3339_render(self.backup_time));
        }
        r
    }
}

/// The position of the last `.` in the final path component, or `-1`
/// when that component has none.
pub open spec fn last_dot_index(s: Seq<char>) -> int
    decreases s.len(),
{
    if s.len() == 0 {
        -1
    } else if s.last() == '.' {
        s.len() - 1
    } else if s.last() == '/' {
        -1
    } else {
        last_dot_index(s.drop_last())
    }
}

/// The path with its extension replaced by `ext`: everything after the
/// last `.` of the final component is dropped; a component without one
/// gets `.ext` appended.
pub open spec fn with_ext(s: Seq<char>, ext: Seq<char>) -> Seq<char> {
    if last_dot_index(s) >= 0 {
        s.take(last_dot_index(s) + 1) + ext
    } else {
        s + seq!['.'] + ext
    }
}

/// Replace the path's extension by `ext`.
pub fn with_extension(path: &str, ext: &str) -> (r: String)
    ensures
        r@ == with_ext(path@, ext@),
{
    let n = path.unicode_len();
    let mut i: usize = 0;
    let mut dot: usize = 0;
    let mut found = false;
    while i < n
        invariant
            i <= n == path@.len(),
            found ==> dot < i && last_dot_index(path@.take(i as int)) == dot,
            !found ==> last_dot_index(path@.take(i as int)) == -1,
        decreases n - i,
    {
        proof {
            assert(path@.take(i + 1int).drop_last() =~= path@.take(i as int));
            assert(path@.take(i + 1int).last() == path@[i as int]);
        }
        let c = path.get_char(i);
        if c == '.' {
            dot = i;
            found = true;
        } else if c == '/' {
            found = false;
        }
        i = i + 1;
    }
    proof {
        assert(path@.take(n as int) =~= path@);
    }
    if found {
        let mut r = path.substring_char(0, dot + 1).to_owned();
        r.append(ext);
        proof {
            assert(r@ =~= with_ext(path@, ext@));
        }
        r
    } else {
        let mut r = path.to_owned();
        r.append(".");
        r.append(ext);
        proof {
            reveal_strlit(".");
            assert(r@ =~= with_ext(path@, ext@));
        }
        r
    }
}

/// True when the name ends with `.fidx`, the fixed index extension.
pub open spec fn is_fidx_name(s: Seq<char>) -> bool {
    ends_with_chars(s, seq!['.', 'f', 'i', 'd', 'x'])
}

/// True when the name ends with `.didx`, the dynamic index extension.
pub open spec fn is_didx_name(s: Seq<char>) -> bool {
    ends_with_chars(s, seq!['.', 'd', 'i', 'd', 'x'])
}

/// True when the name is an index file name of either format.
pub open spec fn is_index_file_name(s: Seq<char>) -> bool {
    is_fidx_name(s) || is_didx_name(s)
}

/// True when the name starts with `.` and is skipped by listings.
pub open spec fn is_hidden_name(s: Seq<char>) -> bool {
    s.len() > 0 && s[0] == '.'
}

/// True when the name ends with `.fidx`.
pub fn name_is_fidx(s: &str) -> (r: bool)
    ensures
        r == is_fidx_name(s@),
{
    let n = s.unicode_len();
    if n < 5 {
        return false;
    }
    proof {
        assert(s@.skip(n - 5) =~= seq![s@[n - 5], s@[n - 4], s@[n - 3], s@[n - 2], s@[n - 1]]);
    }
    s.get_char(n - 5) == '.' && s.get_char(n - 4) == 'f' && s.get_char(n - 3) == 'i'
        && s.get_char(n - 2) == 'd' && s.get_char(n - 1) == 'x'
}

/// True when the name ends with `.didx`.
pub fn name_is_didx(s: &str) -> (r: bool)
    ensures
        r == is_didx_name(s@),
{
    let n = s.unicode_len();
    if n < 5 {
        return false;
    }
    proof {
        assert(s@.skip(n - 5) =~= seq![s@[n - 5], s@[n - 4], s@[n - 3], s@[n - 2], s@[n - 1]]);
    }
    s.get_char(n - 5) == '.' && s.get_char(n - 4) == 'd' && s.get_char(n - 3) == 'i'
        && s.get_char(n - 2) == 'd' && s.get_char(n - 1) == 'x'
}

/// True when the name starts with `.`.
pub fn name_is_hidden(s: &str) -> (r: bool)
    ensures
        r == is_hidden_name(s@),
{
    if s.is_empty() {
        false
    } else {
        s.get_char(0) == '.'
    }
}

} // verus!
