//! VS Code extensions.
use vstd::prelude::*;

use super::{implements_rule, rule_view, str_list, UsedClassMemberRule};

verus! {

/// The provider interfaces whose methods VS Code calls through its
/// registration APIs, with those methods.
pub open spec fn provider_rules() -> Seq<(&'static str, Seq<&'static str>)> {
    seq![
        ("TextDocumentContentProvider", seq!["provideTextDocumentContent"]),
        ("TreeDataProvider", seq!["getTreeItem", "getChildren", "getParent"]),
        ("WebviewViewProvider", seq!["resolveWebviewView"]),
        ("FileDecorationProvider", seq!["provideFileDecoration"]),
        ("CodeLensProvider", seq!["provideCodeLenses", "resolveCodeLens"]),
        ("CompletionItemProvider", seq!["provideCompletionItems", "resolveCompletionItem"]),
        ("DefinitionProvider", seq!["provideDefinition"]),
        ("DocumentSymbolProvider", seq!["provideDocumentSymbols"]),
        ("HoverProvider", seq!["provideHover"]),
        ("ReferenceProvider", seq!["provideReferences"]),
        ("RenameProvider", seq!["provideRenameEdits", "prepareRename"]),
        ("DocumentFormattingEditProvider", seq!["provideDocumentFormattingEdits"]),
        ("DocumentRangeFormattingEditProvider", seq!["provideDocumentRangeFormattingEdits"]),
        ("DocumentLinkProvider", seq!["provideDocumentLinks", "resolveDocumentLink"]),
        ("InlayHintsProvider", seq!["provideInlayHints", "resolveInlayHint"]),
    ]
}

/// Built-in plugin for VS Code extensions.
pub struct VscodePlugin;

impl VscodePlugin {
    /// The plugin's name.
    pub fn name(&self) -> (n: &'static str)
        ensures
            n@ == "vscode"@,
    {
        "vscode"
    }

    /// Packages whose presence activates the plugin.
    pub fn enablers(&self) -> (v: Vec<&'static str>)
        ensures
            v@ == seq![
                "vscode",
                "@types/vscode",
                "@vscode/test-electron",
            ],
    {
        str_list(&[
            "vscode",
            "@types/vscode",
            "@vscode/test-electron",
        ])
    }

    /// Packages used by the extension host and its tests.
    pub fn tooling_dependencies(&self) -> (v: Vec<&'static str>)
        ensures
            v@ == seq![
                "@types/vscode",
                "@vscode/test-electron",
            ],
    {
        str_list(&[
            "@types/vscode",
            "@vscode/test-electron",
        ])
    }


    /// Provider rules: each provider method, scoped to classes that
    /// implement its interface, by its bare and its `vscode.` name.
    pub fn used_class_member_rules(&self) -> (v: Vec<UsedClassMemberRule>)
        ensures
            v@.len() == 2 * provider_rules().len(),
            forall|i: int|
                0 <= i < provider_rules().len() ==> rule_view(#[trigger] v@[2 * i]) == (
                    None::<Seq<char>>,
                    Some(provider_rules()[i].0@),
                    crate::text::views(provider_rules()[i].1),
                ) && rule_view(v@[2 * i + 1]) == (
                    None::<Seq<char>>,
                    Some("vscode."@ + provider_rules()[i].0@),
                    crate::text::views(provider_rules()[i].1),
                ),
    {
        let mut v: Vec<UsedClassMemberRule> = Vec::new();
        let m0: [&str; 1] = ["provideTextDocumentContent"];
        assert(m0@ == provider_rules()[0].1);
        v.push(implements_rule("TextDocumentContentProvider", &m0));
        v.push(implements_rule("vscode.TextDocumentContentProvider", &m0));
        proof {
            reveal_strlit("TextDocumentContentProvider");
            reveal_strlit("vscode.TextDocumentContentProvider");
            reveal_strlit("vscode.");
            assert("vscode.TextDocumentContentProvider"@ =~= "vscode."@ + "TextDocumentContentProvider"@);
        }
        let m1: [&str; 3] = ["getTreeItem", "getChildren", "getParent"];
        assert(m1@ == provider_rules()[1].1);
        v.push(implements_rule("TreeDataProvider", &m1));
        v.push(implements_rule("vscode.TreeDataProvider", &m1));
        proof {
            reveal_strlit("TreeDataProvider");
            reveal_strlit("vscode.TreeDataProvider");
            reveal_strlit("vscode.");
            assert("vscode.TreeDataProvider"@ =~= "vscode."@ + "TreeDataProvider"@);
        }
        let m2: [&str; 1] = ["resolveWebviewView"];
        assert(m2@ == provider_rules()[2].1);
        v.push(implements_rule("WebviewViewProvider", &m2));
        v.push(implements_rule("vscode.WebviewViewProvider", &m2));
        proof {
            reveal_strlit("WebviewViewProvider");
            reveal_strlit("vscode.WebviewViewProvider");
            reveal_strlit("vscode.");
            assert("vscode.WebviewViewProvider"@ =~= "vscode."@ + "WebviewViewProvider"@);
        }
        let m3: [&str; 1] = ["provideFileDecoration"];
        assert(m3@ == provider_rules()[3].1);
        v.push(implements_rule("FileDecorationProvider", &m3));
        v.push(implements_rule("vscode.FileDecorationProvider", &m3));
        proof {
            reveal_strlit("FileDecorationProvider");
            reveal_strlit("vscode.FileDecorationProvider");
            reveal_strlit("vscode.");
            assert("vscode.FileDecorationProvider"@ =~= "vscode."@ + "FileDecorationProvider"@);
        }
        let m4: [&str; 2] = ["provideCodeLenses", "resolveCodeLens"];
        assert(m4@ == provider_rules()[4].1);
        v.push(implements_rule("CodeLensProvider", &m4));
        v.push(implements_rule("vscode.CodeLensProvider", &m4));
        proof {
            reveal_strlit("CodeLensProvider");
            reveal_strlit("vscode.CodeLensProvider");
            reveal_strlit("vscode.");
            assert("vscode.CodeLensProvider"@ =~= "vscode."@ + "CodeLensProvider"@);
        }
        let m5: [&str; 2] = ["provideCompletionItems", "resolveCompletionItem"];
        assert(m5@ == provider_rules()[5].1);
        v.push(implements_rule("CompletionItemProvider", &m5));
        v.push(implements_rule("vscode.CompletionItemProvider", &m5));
        proof {
            reveal_strlit("CompletionItemProvider");
            reveal_strlit("vscode.CompletionItemProvider");
            reveal_strlit("vscode.");
            assert("vscode.CompletionItemProvider"@ =~= "vscode."@ + "CompletionItemProvider"@);
        }
        let m6: [&str; 1] = ["provideDefinition"];
        assert(m6@ == provider_rules()[6].1);
        v.push(implements_rule("DefinitionProvider", &m6));
        v.push(implements_rule("vscode.DefinitionProvider", &m6));
        proof {
            reveal_strlit("DefinitionProvider");
            reveal_strlit("vscode.DefinitionProvider");
            reveal_strlit("vscode.");
            assert("vscode.DefinitionProvider"@ =~= "vscode."@ + "DefinitionProvider"@);
        }
        let m7: [&str; 1] = ["provideDocumentSymbols"];
        assert(m7@ == provider_rules()[7].1);
        v.push(implements_rule("DocumentSymbolProvider", &m7));
        v.push(implements_rule("vscode.DocumentSymbolProvider", &m7));
        proof {
            reveal_strlit("DocumentSymbolProvider");
            reveal_strlit("vscode.DocumentSymbolProvider");
            reveal_strlit("vscode.");
            assert("vscode.DocumentSymbolProvider"@ =~= "vscode."@ + "DocumentSymbolProvider"@);
        }
        let m8: [&str; 1] = ["provideHover"];
        assert(m8@ == provider_rules()[8].1);
        v.push(implements_rule("HoverProvider", &m8));
        v.push(implements_rule("vscode.HoverProvider", &m8));
        proof {
            reveal_strlit("HoverProvider");
            reveal_strlit("vscode.HoverProvider");
            reveal_strlit("vscode.");
            assert("vscode.HoverProvider"@ =~= "vscode."@ + "HoverProvider"@);
        }
        let m9: [&str; 1] = ["provideReferences"];
        assert(m9@ == provider_rules()[9].1);
        v.push(implements_rule("ReferenceProvider", &m9));
        v.push(implements_rule("vscode.ReferenceProvider", &m9));
        proof {
            reveal_strlit("ReferenceProvider");
            reveal_strlit("vscode.ReferenceProvider");
            reveal_strlit("vscode.");
            assert("vscode.ReferenceProvider"@ =~= "vscode."@ + "ReferenceProvider"@);
        }
        let m10: [&str; 2] = ["provideRenameEdits", "prepareRename"];
        assert(m10@ == provider_rules()[10].1);
        v.push(implements_rule("RenameProvider", &m10));
        v.push(implements_rule("vscode.RenameProvider", &m10));
        proof {
            reveal_strlit("RenameProvider");
            reveal_strlit("vscode.RenameProvider");
            reveal_strlit("vscode.");
            assert("vscode.RenameProvider"@ =~= "vscode."@ + "RenameProvider"@);
        }
        let m11: [&str; 1] = ["provideDocumentFormattingEdits"];
        assert(m11@ == provider_rules()[11].1);
        v.push(implements_rule("DocumentFormattingEditProvider", &m11));
        v.push(implements_rule("vscode.DocumentFormattingEditProvider", &m11));
        proof {
            reveal_strlit("DocumentFormattingEditProvider");
            reveal_strlit("vscode.DocumentFormattingEditProvider");
            reveal_strlit("vscode.");
            assert("vscode.DocumentFormattingEditProvider"@ =~= "vscode."@ + "DocumentFormattingEditProvider"@);
        }
        let m12: [&str; 1] = ["provideDocumentRangeFormattingEdits"];
        assert(m12@ == provider_rules()[12].1);
        v.push(implements_rule("DocumentRangeFormattingEditProvider", &m12));
        v.push(implements_rule("vscode.DocumentRangeFormattingEditProvider", &m12));
        proof {
            reveal_strlit("DocumentRangeFormattingEditProvider");
            reveal_strlit("vscode.DocumentRangeFormattingEditProvider");
            reveal_strlit("vscode.");
            assert("vscode.DocumentRangeFormattingEditProvider"@ =~= "vscode."@ + "DocumentRangeFormattingEditProvider"@);
        }
        let m13: [&str; 2] = ["provideDocumentLinks", "resolveDocumentLink"];
        assert(m13@ == provider_rules()[13].1);
        v.push(implements_rule("DocumentLinkProvider", &m13));
        v.push(implements_rule("vscode.DocumentLinkProvider", &m13));
        proof {
            reveal_strlit("DocumentLinkProvider");
            reveal_strlit("vscode.DocumentLinkProvider");
            reveal_strlit("vscode.");
            assert("vscode.DocumentLinkProvider"@ =~= "vscode."@ + "DocumentLinkProvider"@);
        }
        let m14: [&str; 2] = ["provideInlayHints", "resolveInlayHint"];
        assert(m14@ == provider_rules()[14].1);
        v.push(implements_rule("InlayHintsProvider", &m14));
        v.push(implements_rule("vscode.InlayHintsProvider", &m14));
        proof {
            reveal_strlit("InlayHintsProvider");
            reveal_strlit("vscode.InlayHintsProvider");
            reveal_strlit("vscode.");
            assert("vscode.InlayHintsProvider"@ =~= "vscode."@ + "InlayHintsProvider"@);
        }
        v
    }
}

} // verus!
