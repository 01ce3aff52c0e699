//! Rule synthesizer: turns a validated vendor/product identifier pair, an
//! optional symbolic-link name and a permission policy into a rule record —
//! a target filename under the rule directory and one line of rule text.

use vstd::prelude::*;
use vstd::string::StrSliceExecFns;
use vstd::string::StringExecFns;

use crate::errors::ValidationError;
use crate::text::check_id_token;
use crate::text::count_char;
use crate::text::count_char_str;
use crate::text::lemma_count_char_concat;
use crate::text::lemma_count_char_zero;
use crate::text::valid_id_token;

verus! {

/// The access granted by a rule: the four closed choices offered when a
/// rule is created. `ManualEdit` seeds the same dynamic-access clause as
/// `CurrentUserOnly` before the file is handed to an external editor.
#[derive(Debug)]
pub enum PermissionPolicy {
    CurrentUserOnly,
    WorldReadWrite,
    GroupScoped { group: String, mode: String },
    ManualEdit,
}

/// Mathematical image of a policy.
pub ghost enum PolicyView {
    CurrentUserOnly,
    WorldReadWrite,
    GroupScoped { group: Seq<char>, mode: Seq<char> },
    ManualEdit,
}

impl View for PermissionPolicy {
    type V = PolicyView;

    open spec fn view(&self) -> PolicyView {
        match self {
            PermissionPolicy::CurrentUserOnly => PolicyView::CurrentUserOnly,
            PermissionPolicy::WorldReadWrite => PolicyView::WorldReadWrite,
            PermissionPolicy::GroupScoped { group, mode } => PolicyView::GroupScoped {
                group: group@,
                mode: mode@,
            },
            PermissionPolicy::ManualEdit => PolicyView::ManualEdit,
        }
    }
}

/// One rule to be written: where it goes and what it says.
#[derive(Debug)]
pub struct RuleRecord {
    pub filename: String,
    pub vendor_id: String,
    pub product_id: String,
    pub symlink_name: Option<String>,
    pub policy: PermissionPolicy,
}

/// Mathematical image of a rule record.
pub ghost struct RuleRecordView {
    pub filename: Seq<char>,
    pub vendor_id: Seq<char>,
    pub product_id: Seq<char>,
    pub symlink_name: Option<Seq<char>>,
    pub policy: PolicyView,
}

impl View for RuleRecord {
    type V = RuleRecordView;

    open spec fn view(&self) -> RuleRecordView {
        RuleRecordView {
            filename: self.filename@,
            vendor_id: self.vendor_id@,
            product_id: self.product_id@,
            symlink_name: match &self.symlink_name {
                Some(n) => Some(n@),
                None => None,
            },
            policy: self.policy@,
        }
    }
}

/// The start of every rule line: match the USB subsystem, the add action,
/// and open the vendor-id attribute filter.
pub open spec fn match_prefix() -> Seq<char> {
    "SUBSYSTEM==\"usb\", ACTION==\"add\", ATTRS{idVendor}==\""@
}

/// The clause a policy renders to.
pub open spec fn policy_clause(p: PolicyView) -> Seq<char> {
    match p {
        PolicyView::CurrentUserOnly => "TAG+=\"uaccess\""@,
        PolicyView::WorldReadWrite => "MODE=\"0666\""@,
        PolicyView::GroupScoped { group, mode } => "GROUP=\""@ + group + "\", MODE=\""@ + mode
            + "\""@,
        PolicyView::ManualEdit => "TAG+=\"uaccess\""@,
    }
}

/// The symlink-creation clause, appended whenever a symlink name is given.
pub open spec fn symlink_clause(symlink_name: Option<Seq<char>>) -> Seq<char> {
    match symlink_name {
        Some(n) => ", SYMLINK+=\""@ + n + "\""@,
        None => Seq::empty(),
    }
}

/// The full rule text: one match line, a policy clause, an optional
/// symlink clause, and one trailing newline.
pub open spec fn rule_text_spec(
    vendor_id: Seq<char>,
    product_id: Seq<char>,
    symlink_name: Option<Seq<char>>,
    policy: PolicyView,
) -> Seq<char> {
    match_prefix() + vendor_id + "\", ATTRS{idProduct}==\""@ + product_id + "\", "@ + policy_clause(
        policy,
    ) + symlink_clause(symlink_name) + "\n"@
}

/// The text of a rule record.
pub open spec fn rule_text_of(r: RuleRecordView) -> Seq<char> {
    rule_text_spec(r.vendor_id, r.product_id, r.symlink_name, r.policy)
}

/// The target filename: `99-<symlink>.rules` when a symlink name is given,
/// `99-<vendor>-<product>.rules` otherwise.
pub open spec fn filename_spec(
    vendor_id: Seq<char>,
    product_id: Seq<char>,
    symlink_name: Option<Seq<char>>,
) -> Seq<char> {
    "99-"@ + (match symlink_name {
        Some(n) => n,
        None => vendor_id + "-"@ + product_id,
    }) + ".rules"@
}

/// Build the rule record for one device and one policy choice.
///
/// Succeeds exactly when both identifier tokens are non-empty hex; the
/// record then carries the tokens unchanged, the policy, the symlink name,
/// and the derived filename.
pub fn build(
    vendor_id: &str,
    product_id: &str,
    symlink_name: Option<String>,
    policy: PermissionPolicy,
) -> (r: Result<RuleRecord, ValidationError>)
    ensures
        match r {
            Ok(rec) => valid_id_token(vendor_id@) && valid_id_token(product_id@) && rec@.vendor_id
                == vendor_id@ && rec@.product_id == product_id@ && rec@.symlink_name == (match symlink_name {
                Some(n) => Some(n@),
                None => None,
            }) && rec@.policy == policy@ && rec@.filename == filename_spec(
                vendor_id@,
                product_id@,
                rec@.symlink_name,
            ),
            Err(e) => {
                &&& !(valid_id_token(vendor_id@) && valid_id_token(product_id@))
                &&& e == (if !valid_id_token(vendor_id@) {
                    ValidationError::VendorId
                } else {
                    ValidationError::ProductId
                })
            },
        },
{
    if !check_id_token(vendor_id) {
        return Err(ValidationError::VendorId);
    }
    if !check_id_token(product_id) {
        return Err(ValidationError::ProductId);
    }
    let mut filename = String::new();
    filename.append("99-");
    match &symlink_name {
        Some(n) => {
            filename.append(n.as_str());
        },
        None => {
            filename.append(vendor_id);
            filename.append("-");
            filename.append(product_id);
        },
    }
    filename.append(".rules");
    Ok(
        RuleRecord {
            filename,
            vendor_id: String::from_str(vendor_id),
            product_id: String::from_str(product_id),
            symlink_name,
            policy,
        },
    )
}

impl RuleRecord {
    /// Render this record's rule text.
    pub fn render(&self) -> (r: String)
        ensures
            r@ == rule_text_of(self@),
    {
        let mut out = String::new();
        out.append("SUBSYSTEM==\"usb\", ACTION==\"add\", ATTRS{idVendor}==\"");
        out.append(self.vendor_id.as_str());
        out.append("\", ATTRS{idProduct}==\"");
        out.append(self.product_id.as_str());
        out.append("\", ");
        match &self.policy {
            PermissionPolicy::CurrentUserOnly => {
                out.append("TAG+=\"uaccess\"");
            },
            PermissionPolicy::WorldReadWrite => {
                out.append("MODE=\"0666\"");
            },
            PermissionPolicy::GroupScoped { group, mode } => {
                out.append("GROUP=\"");
                out.append(group.as_str());
                out.append("\", MODE=\"");
                out.append(mode.as_str());
                out.append("\"");
            },
            PermissionPolicy::ManualEdit => {
                out.append("TAG+=\"uaccess\"");
            },
        }
        match &self.symlink_name {
            Some(n) => {
                out.append(", SYMLINK+=\"");
                out.append(n.as_str());
                out.append("\"");
            },
            None => {},
        }
        out.append("\n");
        out
    }
}

/// Split a direct `VVVV:PPPP` identifier argument at its colon.
///
/// Succeeds exactly when the input holds exactly one colon; the two
/// returned tokens are the colon-free parts around it.
pub fn parse_identifier(input: &str) -> (r: Result<(String, String), ValidationError>)
    ensures
        match r {
            Ok(pair) => {
                &&& count_char(input@, ':') == 1
                &&& input@ == pair.0@ + seq![':'] + pair.1@
                &&& count_char(pair.0@, ':') == 0
                &&& count_char(pair.1@, ':') == 0
            },
            Err(e) => count_char(input@, ':') != 1 && e == ValidationError::IdentifierShape,
        },
{
    let colons = count_char_str(input, ':');
    if colons != 1 {
        return Err(ValidationError::IdentifierShape);
    }
    let n = input.unicode_len();
    let mut j: usize = 0;
    while j < n && input.get_char(j) != ':'
        invariant
            0 <= j <= n,
            n == input@.len(),
            forall|k: int| 0 <= k < j ==> input@[k] != ':',
        decreases n - j,
    {
        j = j + 1;
    }
    proof {
        if j == n {
            lemma_count_char_zero(input@, ':');
            assert(false);
        }
    }
    let vendor = String::from_str(input.substring_char(0, j));
    let product = String::from_str(input.substring_char(j + 1, n));
    proof {
        assert(vendor@ =~= input@.take(j as int));
        assert(product@ =~= input@.skip(j + 1));
        assert(input@ =~= vendor@ + seq![':'] + product@);
        lemma_count_char_zero(vendor@, ':');
        assert(forall|k: int| 0 <= k < vendor@.len() ==> vendor@[k] != ':');
        assert(input@ =~= vendor@ + (seq![':'] + product@));
        lemma_count_char_concat(vendor@, seq![':'] + product@, ':');
        lemma_count_char_concat(seq![':'], product@, ':');
        assert(count_char(Seq::<char>::empty(), ':') == 0);
        assert(count_char(seq![':'], ':') == 1) by {
            assert(seq![':'].drop_first() =~= Seq::<char>::empty());
            assert(count_char(Seq::<char>::empty(), ':') == 0);
        }
    }
    Ok((vendor, product))
}

/// The match prefix holds no newline.
#[verifier::rlimit(100)]
proof fn lemma_prefix_newline_free()
    ensures
        count_char("SUBSYSTEM==\"usb\", ACTION==\"add\", ATTRS{idVendor}==\""@, '\n') == 0,
{
    reveal_with_fuel(count_char, 20);
    reveal_strlit("SUBSYSTEM==\"usb\", ACTION==\"add\", ATTRS{idVendor}==\"");
    let s = "SUBSYSTEM==\"usb\", ACTION==\"add\", ATTRS{idVendor}==\""@;
    let q1 = s.take(13);
    let q2 = s.subrange(13, 26);
    let q3 = s.subrange(26, 39);
    let q4 = s.skip(39);
    assert(s =~= (q1 + q2) + (q3 + q4));
    lemma_count_char_concat(q1 + q2, q3 + q4, '\n');
    lemma_count_char_concat(q1, q2, '\n');
    lemma_count_char_concat(q3, q4, '\n');
    assert(count_char(q1, '\n') == 0);
    assert(count_char(q2, '\n') == 0);
    assert(count_char(q3, '\n') == 0);
    assert(count_char(q4, '\n') == 0);
}

/// No newline hides in any of the shorter fixed fragments of a rule line.
#[verifier::rlimit(100)]
proof fn lemma_fragments_newline_free()
    ensures
        count_char("\", ATTRS{idProduct}==\""@, '\n') == 0,
        count_char("\", "@, '\n') == 0,
        count_char("TAG+=\"uaccess\""@, '\n') == 0,
        count_char("MODE=\"0666\""@, '\n') == 0,
        count_char("GROUP=\""@, '\n') == 0,
        count_char("\", MODE=\""@, '\n') == 0,
        count_char("\""@, '\n') == 0,
        count_char(", SYMLINK+=\""@, '\n') == 0,
        count_char("\n"@, '\n') == 1,
{
    reveal_with_fuel(count_char, 30);
    reveal_strlit("\", ATTRS{idProduct}==\"");
    reveal_strlit("\", ");
    reveal_strlit("TAG+=\"uaccess\"");
    reveal_strlit("MODE=\"0666\"");
    reveal_strlit("GROUP=\"");
    reveal_strlit("\", MODE=\"");
    reveal_strlit("\"");
    reveal_strlit(", SYMLINK+=\"");
    reveal_strlit("\n");
    assert(count_char("\", ATTRS{idProduct}==\""@, '\n') == 0);
    assert(count_char("\", "@, '\n') == 0);
    assert(count_char("TAG+=\"uaccess\""@, '\n') == 0);
    assert(count_char("MODE=\"0666\""@, '\n') == 0);
    assert(count_char("GROUP=\""@, '\n') == 0);
    assert(count_char("\", MODE=\""@, '\n') == 0);
    assert(count_char("\""@, '\n') == 0);
    assert(count_char(", SYMLINK+=\""@, '\n') == 0);
    assert(count_char("\n"@, '\n') == 1);
}

/// A token of hex digits holds no newline.
proof fn lemma_hex_token_newline_free(s: Seq<char>)
    requires
        valid_id_token(s),
    ensures
        count_char(s, '\n') == 0,
{
    assert(forall|i: int| 0 <= i < s.len() ==> s[i] != '\n');
    lemma_count_char_zero(s, '\n');
}

/// Rule text is one line: it begins with the subsystem match prefix and
/// holds exactly one newline, which stands at its end — for any policy and
/// symlink name that themselves carry no newline.
pub proof fn lemma_rule_text_single_line(
    vendor_id: Seq<char>,
    product_id: Seq<char>,
    symlink_name: Option<Seq<char>>,
    policy: PolicyView,
)
    requires
        valid_id_token(vendor_id),
        valid_id_token(product_id),
        match symlink_name {
            Some(n) => count_char(n, '\n') == 0,
            None => true,
        },
        match policy {
            PolicyView::GroupScoped { group, mode } => count_char(group, '\n') == 0 && count_char(
                mode,
                '\n',
            ) == 0,
            _ => true,
        },
    ensures
        rule_text_spec(vendor_id, product_id, symlink_name, policy).len() > 0,
        rule_text_spec(vendor_id, product_id, symlink_name, policy).last() == '\n',
        count_char(rule_text_spec(vendor_id, product_id, symlink_name, policy), '\n') == 1,
        rule_text_spec(vendor_id, product_id, symlink_name, policy).take(
            match_prefix().len() as int,
        ) == match_prefix(),
{
    lemma_prefix_newline_free();
    lemma_fragments_newline_free();
    lemma_hex_token_newline_free(vendor_id);
    lemma_hex_token_newline_free(product_id);
    let p1 = match_prefix();
    let p2 = "\", ATTRS{idProduct}==\""@;
    let p3 = "\", "@;
    let nl = "\n"@;
    let clause = policy_clause(policy);
    let sym = symlink_clause(symlink_name);
    let a1 = p1 + vendor_id;
    let a2 = a1 + p2;
    let a3 = a2 + product_id;
    let a4 = a3 + p3;
    let a5 = a4 + clause;
    let a6 = a5 + sym;
    let t = a6 + nl;
    assert(t == rule_text_spec(vendor_id, product_id, symlink_name, policy));
    match policy {
        PolicyView::GroupScoped { group, mode } => {
            let g1 = "GROUP=\""@;
            let g2 = "\", MODE=\""@;
            let g3 = "\""@;
            lemma_count_char_concat(g1, group, '\n');
            lemma_count_char_concat(g1 + group, g2, '\n');
            lemma_count_char_concat(g1 + group + g2, mode, '\n');
            lemma_count_char_concat(g1 + group + g2 + mode, g3, '\n');
            assert(count_char(clause, '\n') == 0);
        },
        _ => {
            assert(count_char(clause, '\n') == 0);
        },
    }
    match symlink_name {
        Some(n) => {
            let s1 = ", SYMLINK+=\""@;
            let s2 = "\""@;
            lemma_count_char_concat(s1, n, '\n');
            lemma_count_char_concat(s1 + n, s2, '\n');
            assert(count_char(sym, '\n') == 0);
        },
        None => {
            assert(count_char(sym, '\n') == 0);
        },
    }
    lemma_count_char_concat(p1, vendor_id, '\n');
    lemma_count_char_concat(a1, p2, '\n');
    lemma_count_char_concat(a2, product_id, '\n');
    lemma_count_char_concat(a3, p3, '\n');
    lemma_count_char_concat(a4, clause, '\n');
    lemma_count_char_concat(a5, sym, '\n');
    lemma_count_char_concat(a6, nl, '\n');
    reveal_strlit("\n");
    assert(t.last() == nl[0]);
    assert(t.take(p1.len() as int) =~= p1);
}

/// The symlink name proposed to the operator: vendor and product joined by
/// an underscore.
pub fn default_symlink_name(vendor_id: &str, product_id: &str) -> (r: String)
    ensures
        r@ == vendor_id@ + "_"@ + product_id@,
{
    let mut out = String::from_str(vendor_id);
    out.append("_");
    out.append(product_id);
    out
}

/// The group suggested for a group-scoped rule on the given operating
/// system id, and whether that id was recognized: `uucp` on the arch
/// family, `dialout` on the recognized others and as the fallback.
pub fn default_group_for(os_id: &str) -> (r: (String, bool))
    ensures
        (os_id@ == "arch"@ || os_id@ == "manjaro"@) ==> r.0@ == "uucp"@ && r.1,
        !(os_id@ == "arch"@ || os_id@ == "manjaro"@) && (os_id@ == "ubuntu"@ || os_id@
            == "linuxmint"@ || os_id@ == "debian"@ || os_id@ == "fedora"@ || os_id@ == "rhel"@)
            ==> r.0@ == "dialout"@ && r.1,
        !(os_id@ == "arch"@ || os_id@ == "manjaro"@ || os_id@ == "ubuntu"@ || os_id@
            == "linuxmint"@ || os_id@ == "debian"@ || os_id@ == "fedora"@ || os_id@ == "rhel"@)
            ==> r.0@ == "dialout"@ && !r.1,
{
    if crate::text::str_eq(os_id, "arch") || crate::text::str_eq(os_id, "manjaro") {
        (String::from_str("uucp"), true)
    } else if crate::text::str_eq(os_id, "ubuntu") || crate::text::str_eq(os_id, "linuxmint")
        || crate::text::str_eq(os_id, "debian") || crate::text::str_eq(os_id, "fedora")
        || crate::text::str_eq(os_id, "rhel") {
        (String::from_str("dialout"), true)
    } else {
        (String::from_str("dialout"), false)
    }
}

} // verus!
