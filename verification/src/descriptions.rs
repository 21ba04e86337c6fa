//! The texts that `help` prints.

use vstd::prelude::*;
use crate::text::str_eq;

verus! {

/// The text that `help` prints when it is given no command.
pub const TOOL_DESCRIPTION: &'static str = r#"
Simple AES GCM encryption/decryption tool.

Usage Examples:
1. Encrypt a file: `encrypt file.txt --name encrypted_file`
2. Decrypt a file: `decrypt encrypted_file`

For more information use `help <command>`
"#;

/// The help text of `encrypt`.
pub const ENCRYPT_HELP: &'static str = r#"
Encrypt a file or a directory. 
Syntax : encrypt <path> [flags]


Flags:
    
--name:         Specify the name of the encrypted file. If not set the name will be the name of the starting file or directory.
--no-delete:    If set, unencrypted files will not be deleted.
--location:     Specify the path where the encrypted file will be created.
"#;

/// The help text of `e`, the alias of `encrypt`.
pub const ENCRYPT_ALIAS_HELP: &'static str = r#"
Alias for the 'encrypt' command.

Encrypt a file or a directory.
Syntax: e <path> [flags]

Flags:
--name:         Specify the name of the encrypted file. If not set, the name will default to the name of the starting file or directory.
--no-delete:    If set, unencrypted files will not be deleted.
--location:     Specify the path where the encrypted file will be created.
"#;

/// The help text of `decrypt`.
pub const DECRYPT_HELP: &'static str = r#"
decrypt an encrypted file or directory.
Syntax: decrypt <path> [flags]

Flags:
--location:   Specify the path where the decrypted file will be created.
"#;

/// The help text of `d`, the alias of `decrypt`.
pub const DECRYPT_ALIAS_HELP: &'static str = r#"
Alias for the 'decrypt' command.

Decrypt an encrypted file or directory.
Syntax: d <path> [flags]

Flags:
--location:     Specify the path where the decrypted file will be created.
"#;

/// The help text of `help`.
pub const HELP_HELP: &'static str = r#"
Display help information for commands.
Syntax: help [<command>]

Examples:
help          Display a list of all commands.
help encrypt  Display detailed help for the 'encrypt' command.
"#;

/// The help text of the command `topic`, if there is such a command.
pub open spec fn help_text(topic: Seq<char>) -> Option<Seq<char>> {
    if topic == "encrypt"@ {
        Some(ENCRYPT_HELP@)
    } else if topic == "e"@ {
        Some(ENCRYPT_ALIAS_HELP@)
    } else if topic == "decrypt"@ {
        Some(DECRYPT_HELP@)
    } else if topic == "d"@ {
        Some(DECRYPT_ALIAS_HELP@)
    } else if topic == "help"@ {
        Some(HELP_HELP@)
    } else {
        None
    }
}

/// The help text of the command `topic`, if there is such a command.
pub fn cmd_help(topic: &str) -> (r: Option<&'static str>)
    ensures
        opt_view(r) == help_text(topic@),
{
    if str_eq(topic, "encrypt") {
        Some(ENCRYPT_HELP)
    } else if str_eq(topic, "e") {
        Some(ENCRYPT_ALIAS_HELP)
    } else if str_eq(topic, "decrypt") {
        Some(DECRYPT_HELP)
    } else if str_eq(topic, "d") {
        Some(DECRYPT_ALIAS_HELP)
    } else if str_eq(topic, "help") {
        Some(HELP_HELP)
    } else {
        None
    }
}

/// The view of an optional string slice.
pub open spec fn opt_view(o: Option<&str>) -> Option<Seq<char>> {
    match o {
        Some(s) => Some(s@),
        None => None,
    }
}

/// Each command has its own help text: `help encrypt` and `help e` describe
/// encryption, `help decrypt` and `help d` describe decryption, `help help`
/// describes `help`, and these texts all differ from one another except
/// that of a command and its alias; any other topic has none.
pub proof fn lemma_help_table(topic: Seq<char>)
    ensures
        help_text("encrypt"@) == Some(ENCRYPT_HELP@),
        help_text("e"@) == Some(ENCRYPT_ALIAS_HELP@),
        help_text("decrypt"@) == Some(DECRYPT_HELP@),
        help_text("d"@) == Some(DECRYPT_ALIAS_HELP@),
        help_text("help"@) == Some(HELP_HELP@),
        ENCRYPT_HELP@ != DECRYPT_HELP@,
        ENCRYPT_HELP@ != DECRYPT_ALIAS_HELP@,
        ENCRYPT_ALIAS_HELP@ != DECRYPT_HELP@,
        ENCRYPT_ALIAS_HELP@ != DECRYPT_ALIAS_HELP@,
        HELP_HELP@ != ENCRYPT_HELP@,
        HELP_HELP@ != DECRYPT_HELP@,
        topic != "encrypt"@ && topic != "e"@ && topic != "decrypt"@ && topic != "d"@ && topic
            != "help"@ ==> help_text(topic) is None,
{
    reveal_strlit("encrypt");
    reveal_strlit("e");
    reveal_strlit("decrypt");
    reveal_strlit("d");
    reveal_strlit("help");
    reveal_strlit(r#"
Encrypt a file or a directory. 
Syntax : encrypt <path> [flags]


Flags:
    
--name:         Specify the name of the encrypted file. If not set the name will be the name of the starting file or directory.
--no-delete:    If set, unencrypted files will not be deleted.
--location:     Specify the path where the encrypted file will be created.
"#);
    reveal_strlit(r#"
Alias for the 'encrypt' command.

Encrypt a file or a directory.
Syntax: e <path> [flags]

Flags:
--name:         Specify the name of the encrypted file. If not set, the name will default to the name of the starting file or directory.
--no-delete:    If set, unencrypted files will not be deleted.
--location:     Specify the path where the encrypted file will be created.
"#);
    reveal_strlit(r#"
decrypt an encrypted file or directory.
Syntax: decrypt <path> [flags]

Flags:
--location:   Specify the path where the decrypted file will be created.
"#);
    reveal_strlit(r#"
Alias for the 'decrypt' command.

Decrypt an encrypted file or directory.
Syntax: d <path> [flags]

Flags:
--location:     Specify the path where the decrypted file will be created.
"#);
    reveal_strlit(r#"
Display help information for commands.
Syntax: help [<command>]

Examples:
help          Display a list of all commands.
help encrypt  Display detailed help for the 'encrypt' command.
"#);
    assert("encrypt"@ != "e"@ && "encrypt"@ != "decrypt"@ && "encrypt"@ != "d"@ && "encrypt"@ != "help"@ && "e"@ != "d"@
        && "e"@ != "decrypt"@ && "e"@ != "help"@ && "decrypt"@ != "d"@ && "decrypt"@ != "help"@
        && "d"@ != "help"@) by {
        assert("encrypt"@.len() == 7 && "decrypt"@.len() == 7 && "e"@.len() == 1 && "d"@.len() == 1
            && "help"@.len() == 4);
        assert("encrypt"@[0] != "decrypt"@[0]);
        assert("e"@[0] != "d"@[0]);
    }
    assert(ENCRYPT_HELP@.len() != DECRYPT_HELP@.len());
    assert(ENCRYPT_HELP@.len() != DECRYPT_ALIAS_HELP@.len());
    assert(ENCRYPT_ALIAS_HELP@.len() != DECRYPT_HELP@.len());
    assert(ENCRYPT_ALIAS_HELP@.len() != DECRYPT_ALIAS_HELP@.len());
    assert(HELP_HELP@.len() != ENCRYPT_HELP@.len());
    assert(HELP_HELP@.len() != DECRYPT_HELP@.len());
}

} // verus!
