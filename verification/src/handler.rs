//! The request handler: owns the filesystem service together with the
//! server-wide read-only flag, and gates every write-class request.

use crate::cli::CommandArguments;
use crate::error::ServiceError;
use crate::fs_service::utils::spec_expand_home;
use crate::fs_service::FileSystemService;
use crate::text::{join_strings, join_with, str_views};
use vstd::prelude::*;
use vstd::string::*;

verus! {

/// Owns the configured service and whether the server runs read-only.
pub struct MyServerHandler {
    pub readonly: bool,
    pub fs_service: FileSystemService,
}

/// The banner printed at startup: the access mode and every allowed
/// directory.
pub open spec fn spec_startup_message(readonly: bool, roots: Seq<Seq<char>>) -> Seq<char> {
    "Secure MCP Filesystem Server running in \""@ + (if !readonly {
        "read/write"@
    } else {
        "readonly"@
    }) + "\" mode.\nAllowed directories:\n"@ + join_with(roots, ",\n"@)
}

impl MyServerHandler {
    /// Builds the handler from parsed command arguments and the working
    /// directory: the service is constructed over the requested allowed
    /// directories, and write access is granted only when asked for.
    pub fn new(args: &CommandArguments, cwd: String) -> (r: Result<MyServerHandler, ServiceError>)
        ensures
            match r {
                Ok(h) => {
                    &&& h.readonly == !args.allow_write
                    &&& h.fs_service.cwd@ == cwd@
                    &&& h.fs_service.allowed_path@.len() == args.allowed_directories@.len()
                    &&& forall|i: int|
                        0 <= i < args.allowed_directories@.len() ==> (
                        #[trigger] h.fs_service.allowed_path@[i])@ == spec_expand_home(
                            args.allowed_directories@[i]@,
                            h.fs_service.home_view(),
                        )
                },
                Err(e) => e matches ServiceError::FromString(_),
            },
    {
        let fs_service = match FileSystemService::try_new(&args.allowed_directories, cwd) {
            Ok(s) => s,
            Err(e) => {
                return Err(e);
            },
        };
        Ok(MyServerHandler { fs_service, readonly: !args.allow_write })
    }

    /// Succeeds exactly when the server may write; otherwise reports the
    /// read-only refusal.
    pub fn assert_write_access(&self) -> (r: Result<(), ServiceError>)
        ensures
            r is Ok <==> !self.readonly,
            r matches Err(e) ==> e matches ServiceError::NoWriteAccess,
    {
        if self.readonly {
            Err(ServiceError::NoWriteAccess)
        } else {
            Ok(())
        }
    }

    /// The banner printed at startup: the access mode and every allowed
    /// directory.
    pub fn startup_message(&self) -> (r: String)
        ensures
            r@ == spec_startup_message(
                self.readonly,
                str_views(self.fs_service.allowed_path@),
            ),
    {
        let mut out = String::from_str("Secure MCP Filesystem Server running in \"");
        out.append(
            if !self.readonly {
                "read/write"
            } else {
                "readonly"
            },
        );
        out.append("\" mode.\nAllowed directories:\n");
        let joined = join_strings(self.fs_service.allowed_directories(), ",\n");
        out.append(joined.as_str());
        out
    }
}

} // verus!
