//! Editor resolution for the manual-edit path: from the two environment
//! variables and the availability of the common terminal editors, decide
//! which editor command to launch. The caller reads the environment and
//! probes for the commands; the priority order is decided and stated here.

use vstd::prelude::*;
use vstd::string::StringExecFns;

use crate::errors::EditorError;

verus! {

/// Choose the editor: `$VISUAL`, then `$EDITOR`, then the first of nano,
/// nvim, vim and vi that is available; with none of them, no editor can
/// be resolved.
pub fn choose_editor(
    visual: Option<String>,
    editor_var: Option<String>,
    has_nano: bool,
    has_nvim: bool,
    has_vim: bool,
    has_vi: bool,
) -> (r: Result<String, EditorError>)
    ensures
        match r {
            Ok(ed) => match visual {
                Some(v) => ed@ == v@,
                None => match editor_var {
                    Some(e) => ed@ == e@,
                    None => {
                        &&& (has_nano ==> ed@ == "nano"@)
                        &&& (!has_nano && has_nvim ==> ed@ == "nvim"@)
                        &&& (!has_nano && !has_nvim && has_vim ==> ed@ == "vim"@)
                        &&& (!has_nano && !has_nvim && !has_vim && has_vi ==> ed@ == "vi"@)
                        &&& (has_nano || has_nvim || has_vim || has_vi)
                    },
                },
            },
            Err(e) => {
                &&& visual is None
                &&& editor_var is None
                &&& !has_nano
                &&& !has_nvim
                &&& !has_vim
                &&& !has_vi
                &&& e == EditorError::NoEditor
            },
        },
{
    match visual {
        Some(v) => Ok(v),
        None => match editor_var {
            Some(e) => Ok(e),
            None => {
                if has_nano {
                    Ok(String::from_str("nano"))
                } else if has_nvim {
                    Ok(String::from_str("nvim"))
                } else if has_vim {
                    Ok(String::from_str("vim"))
                } else if has_vi {
                    Ok(String::from_str("vi"))
                } else {
                    Err(EditorError::NoEditor)
                }
            },
        },
    }
}

} // verus!
