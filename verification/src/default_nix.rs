//! The module `modules/nixlayer/default.nix`.
//!
//! It imports every other `.nix` file of its directory at evaluation time, so a new category
//! needs no change to it.

use vstd::prelude::*;

use crate::text::{concat3, contains, occurs_at};

verus! {

/// The module, as it is without any setting.
pub const DEFAULT_NIX: &'static str = "# This file is managed by nixlayer. Do not hand-edit.\n#\n# It automatically imports every category file next to it (any *.nix file\n# in this directory other than this one). Adding a new category with\n# `nixlayer add <package> --category <name>` does not require touching this file.\n{ lib, ... }:\nlet\n  dir = ./.;\n  entries = builtins.readDir dir;\n  isCategoryFile = name: type:\n    type == \"regular\" && name != \"default.nix\" && lib.hasSuffix \".nix\" name;\n  categoryFiles = builtins.attrNames (lib.filterAttrs isCategoryFile entries);\nin\n{\n  imports = map (name: dir + \"/${name}\") categoryFiles;\n}\n";

/// The module up to its last brace.
pub const OPEN_MODULE: &'static str = "# This file is managed by nixlayer. Do not hand-edit.\n#\n# It automatically imports every category file next to it (any *.nix file\n# in this directory other than this one). Adding a new category with\n# `nixlayer add <package> --category <name>` does not require touching this file.\n{ lib, ... }:\nlet\n  dir = ./.;\n  entries = builtins.readDir dir;\n  isCategoryFile = name: type:\n    type == \"regular\" && name != \"default.nix\" && lib.hasSuffix \".nix\" name;\n  categoryFiles = builtins.attrNames (lib.filterAttrs isCategoryFile entries);\nin\n{\n  imports = map (name: dir + \"/${name}\") categoryFiles;\n";

/// The line that allows unfree packages.
pub const UNFREE_LINE: &'static str = "  nixpkgs.config.allowUnfree = true;\n";

/// The text of the module.
pub open spec fn module_text(allow_unfree: bool) -> Seq<char> {
    if allow_unfree {
        OPEN_MODULE@ + UNFREE_LINE@ + "}\n"@
    } else {
        DEFAULT_NIX@
    }
}

/// The module, as it is without any setting.
pub fn render() -> (r: &'static str)
    ensures
        r@ == module_text(false),
{
    DEFAULT_NIX
}

/// The module for a setting: with the line that allows unfree packages where they are allowed.
pub fn render_with(allow_unfree: bool) -> (r: String)
    ensures
        r@ == module_text(allow_unfree),
{
    if allow_unfree {
        concat3(OPEN_MODULE, UNFREE_LINE, "}\n")
    } else {
        DEFAULT_NIX.to_string()
    }
}

proof fn lemma_module_chars()
    ensures
        forall|i: int| 0 <= i < DEFAULT_NIX@.len() ==> DEFAULT_NIX@[i] != 'U' && DEFAULT_NIX@[i] != 'P',
        DEFAULT_NIX@ == OPEN_MODULE@ + "}\n"@,
{
    reveal_strlit(
        "# This file is managed by nixlayer. Do not hand-edit.\n#\n# It automatically imports every category file next to it (any *.nix file\n# in this directory other than this one). Adding a new category with\n# `nixlayer add <package> --category <name>` does not require touching this file.\n{ lib, ... }:\nlet\n  dir = ./.;\n  entries = builtins.readDir dir;\n  isCategoryFile = name: type:\n    type == \"regular\" && name != \"default.nix\" && lib.hasSuffix \".nix\" name;\n  categoryFiles = builtins.attrNames (lib.filterAttrs isCategoryFile entries);\nin\n{\n  imports = map (name: dir + \"/${name}\") categoryFiles;\n}\n",
    );
    reveal_strlit(
        "# This file is managed by nixlayer. Do not hand-edit.\n#\n# It automatically imports every category file next to it (any *.nix file\n# in this directory other than this one). Adding a new category with\n# `nixlayer add <package> --category <name>` does not require touching this file.\n{ lib, ... }:\nlet\n  dir = ./.;\n  entries = builtins.readDir dir;\n  isCategoryFile = name: type:\n    type == \"regular\" && name != \"default.nix\" && lib.hasSuffix \".nix\" name;\n  categoryFiles = builtins.attrNames (lib.filterAttrs isCategoryFile entries);\nin\n{\n  imports = map (name: dir + \"/${name}\") categoryFiles;\n",
    );
    reveal_strlit("}\n");
    assert(DEFAULT_NIX@ =~= OPEN_MODULE@ + "}\n"@);
}

/// The module speaks of unfree packages exactly where they are allowed, and the line that allows
/// them is all that the setting changes.
pub proof fn module_follows_the_setting(allow_unfree: bool)
    ensures
        contains(module_text(allow_unfree), "allowUnfree"@) <==> allow_unfree,
        allow_unfree ==> contains(module_text(allow_unfree), "allowUnfree = true;"@),
        module_text(false) == OPEN_MODULE@ + "}\n"@,
        module_text(true) == OPEN_MODULE@ + UNFREE_LINE@ + "}\n"@,
{
    lemma_module_chars();
    reveal_strlit("allowUnfree");
    reveal_strlit("allowUnfree = true;");
    reveal_strlit("  nixpkgs.config.allowUnfree = true;\n");
    let t = module_text(allow_unfree);
    if allow_unfree {
        let k = OPEN_MODULE@.len() as int + 17;
        assert(t.subrange(k, k + 11) =~= "allowUnfree"@);
        assert(occurs_at(t, "allowUnfree"@, k));
        assert(t.subrange(k, k + 19) =~= "allowUnfree = true;"@);
        assert(occurs_at(t, "allowUnfree = true;"@, k));
    } else if contains(t, "allowUnfree"@) {
        let j = choose|j: int| occurs_at(t, "allowUnfree"@, j);
        assert(t.subrange(j, j + 11)[5] == t[j + 5]);
    }
}

/// Neither setting puts a `P` into the module, so no marker of a category file stands in it.
pub proof fn lemma_module_has_no_marker(allow_unfree: bool)
    ensures
        forall|i: int|
            0 <= i < module_text(allow_unfree).len() ==> #[trigger] module_text(allow_unfree)[i] != 'P',
{
    lemma_module_chars();
    reveal_strlit("  nixpkgs.config.allowUnfree = true;\n");
    reveal_strlit("}\n");
    let t = module_text(allow_unfree);
    if allow_unfree {
        let n = OPEN_MODULE@.len() as int;
        assert forall|i: int| 0 <= i < t.len() implies #[trigger] t[i] != 'P' by {
            if i < n {
                assert(t[i] == DEFAULT_NIX@[i]);
            }
        }
    }
}

} // verus!
