#!/bin/sh
# To be sourced before the helper is built: names the revision that the build is stamped with.
# Where git fails the name is empty, and the helper calls its revision unknown.
HELPER_GIT_HASH=$(git rev-parse --short HEAD 2>/dev/null) || HELPER_GIT_HASH=
export HELPER_GIT_HASH
